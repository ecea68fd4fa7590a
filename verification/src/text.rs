//! Character classes and verified text utilities: scanning digit runs,
//! splitting a text on a separator, dropping blank pieces, and removing
//! duplicate labels.

use vstd::prelude::*;
use vstd::seq_lib::*;

verus! {

pub open spec fn is_digit(c: char) -> bool {
    '0' <= c && c <= '9'
}

pub open spec fn is_upper(c: char) -> bool {
    'A' <= c && c <= 'Z'
}

pub open spec fn is_lower(c: char) -> bool {
    'a' <= c && c <= 'z'
}

/// Characters permitted after the `@` of an explicit unique identifier:
/// letters, digits and the underscore.
pub open spec fn is_ident_char(c: char) -> bool {
    is_digit(c) || is_upper(c) || is_lower(c) || c == '_'
}

pub open spec fn digit_val(c: char) -> int {
    c as int - '0' as int
}

pub open spec fn all_digits(s: Seq<char>) -> bool {
    forall|i: int| 0 <= i < s.len() ==> is_digit(s[i])
}

/// The number a run of decimal digits denotes, read in base ten.
pub open spec fn digits_val(s: Seq<char>) -> int
    decreases s.len(),
{
    if s.len() == 0 {
        0
    } else {
        digits_val(s.drop_last()) * 10 + digit_val(s.last())
    }
}

/// How many leading characters of `s` are decimal digits.
pub open spec fn digits_end(s: Seq<char>) -> int
    decreases s.len(),
{
    if s.len() > 0 && is_digit(s[0]) {
        1 + digits_end(s.drop_first())
    } else {
        0
    }
}

/// The digit run's length is determined by any witness index `i` at which
/// the digits stop.
pub proof fn lemma_digits_end_is(s: Seq<char>, i: int)
    requires
        0 <= i <= s.len(),
        forall|j: int| 0 <= j < i ==> is_digit(s[j]),
        i < s.len() ==> !is_digit(s[i]),
    ensures
        digits_end(s) == i,
    decreases s.len(),
{
    if i == 0 {
    } else {
        assert(is_digit(s[0]));
        lemma_digits_end_is(s.drop_first(), i - 1);
    }
}

pub proof fn lemma_digits_val_take_succ(s: Seq<char>, i: int)
    requires
        0 <= i < s.len(),
    ensures
        digits_val(s.take(i + 1)) == digits_val(s.take(i)) * 10 + digit_val(s[i]),
{
    assert(s.take(i + 1).drop_last() =~= s.take(i));
    assert(s.take(i + 1).last() == s[i]);
}

pub proof fn lemma_digits_val_nonneg(s: Seq<char>)
    requires
        all_digits(s),
    ensures
        digits_val(s) >= 0,
    decreases s.len(),
{
    if s.len() > 0 {
        assert(all_digits(s.drop_last()));
        lemma_digits_val_nonneg(s.drop_last());
        assert(is_digit(s.last()));
    }
}

/// The separator sequence named by one mandatory character and an optional
/// second one.
pub open spec fn sep_seq(c1: char, c2: Option<char>) -> Seq<char> {
    match c2 {
        None => seq![c1],
        Some(c) => seq![c1, c],
    }
}

/// The first index at or after `from` where `sep` occurs in `s`, or
/// `s.len()` if it occurs nowhere there.
pub open spec fn find_sep(s: Seq<char>, sep: Seq<char>, from: int) -> int
    decreases s.len() - from,
    when 0 <= from <= s.len() && 1 <= sep.len()
{
    if from + sep.len() > s.len() {
        s.len() as int
    } else if s.subrange(from, from + sep.len()) == sep {
        from
    } else {
        find_sep(s, sep, from + 1)
    }
}

pub proof fn lemma_find_sep(s: Seq<char>, sep: Seq<char>, from: int)
    requires
        0 <= from <= s.len(),
        1 <= sep.len(),
    ensures
        from <= find_sep(s, sep, from) <= s.len(),
        find_sep(s, sep, from) < s.len() ==> find_sep(s, sep, from) + sep.len() <= s.len()
            && s.subrange(find_sep(s, sep, from), find_sep(s, sep, from) + sep.len()) == sep,
        forall|j: int|
            from <= j < find_sep(s, sep, from) && j + sep.len() <= s.len() ==> #[trigger] s.subrange(
                j,
                j + sep.len(),
            ) != sep,
    decreases s.len() - from,
{
    if from + sep.len() > s.len() {
    } else if s.subrange(from, from + sep.len()) == sep {
    } else {
        lemma_find_sep(s, sep, from + 1);
    }
}

/// The pieces of `s` between consecutive occurrences of `sep`, starting at
/// `from`; always at least one piece, possibly empty.
pub open spec fn split_from(s: Seq<char>, sep: Seq<char>, from: int) -> Seq<Seq<char>>
    decreases s.len() - from,
    when 0 <= from <= s.len() && 1 <= sep.len()
{
    let k0 = find_sep(s, sep, from);
    let k = if from <= k0 && k0 + sep.len() <= s.len() {
        k0
    } else {
        s.len() as int
    };
    if k == s.len() {
        seq![s.subrange(from, s.len() as int)]
    } else {
        seq![s.subrange(from, k)] + split_from(s, sep, k + sep.len())
    }
}

/// `s` split on every occurrence of `sep`.
pub open spec fn split_by(s: Seq<char>, sep: Seq<char>) -> Seq<Seq<char>> {
    split_from(s, sep, 0)
}

pub proof fn lemma_split_parts_len(s: Seq<char>, sep: Seq<char>, from: int)
    requires
        0 <= from <= s.len(),
        1 <= sep.len(),
    ensures
        forall|i: int|
            0 <= i < split_from(s, sep, from).len() ==> #[trigger] split_from(s, sep, from)[
                i
            ].len() <= s.len(),
    decreases s.len() - from,
{
    lemma_find_sep(s, sep, from);
    let k0 = find_sep(s, sep, from);
    let k = if from <= k0 && k0 + sep.len() <= s.len() {
        k0
    } else {
        s.len() as int
    };
    if k < s.len() {
        lemma_split_parts_len(s, sep, k + sep.len());
        let rest = split_from(s, sep, k + sep.len());
        assert forall|i: int|
            0 <= i < split_from(s, sep, from).len() implies #[trigger] split_from(s, sep, from)[
            i
        ].len() <= s.len() by {
            if i > 0 {
                assert(split_from(s, sep, from)[i] == rest[i - 1]);
            }
        }
    }
}

/// Every non-blank piece of a split is at most as long as the text.
pub proof fn lemma_fields_len(l: Seq<char>, sep: Seq<char>)
    requires
        1 <= sep.len(),
    ensures
        forall|i: int|
            0 <= i < nonblank(split_by(l, sep)).len() ==> #[trigger] nonblank(split_by(l, sep))[
                i
            ].len() <= l.len(),
{
    lemma_split_parts_len(l, sep, 0);
    let parts = split_by(l, sep);
    let nb = nonblank(parts);
    assert forall|i: int| 0 <= i < nb.len() implies #[trigger] nb[i].len() <= l.len() by {
        assert(nb.contains(nb[i]));
        parts.lemma_filter_contains_rev(|p: Seq<char>| p.len() != 0, nb[i]);
        let w = choose|w: int| 0 <= w < parts.len() && #[trigger] parts[w] == nb[i];
        assert(parts[w].len() <= l.len());
    }
}

/// The sub-sequences that are not empty, in order.
pub open spec fn nonblank(parts: Seq<Seq<char>>) -> Seq<Seq<char>> {
    parts.filter(|p: Seq<char>| p.len() != 0)
}

/// `s` contains an occurrence of the two-character Windows line break.
pub open spec fn has_crlf(s: Seq<char>) -> bool {
    find_sep(s, seq!['\r', '\n'], 0) < s.len()
}

/// The line separator a whole buffer uses: the two-character form if it
/// occurs anywhere, the bare newline otherwise.
pub open spec fn line_sep(s: Seq<char>) -> Seq<char> {
    if has_crlf(s) {
        seq!['\r', '\n']
    } else {
        seq!['\n']
    }
}

/// `s` with later repetitions of a value removed: each value keeps its
/// first occurrence only.
pub open spec fn dedup(s: Seq<Seq<char>>) -> Seq<Seq<char>>
    decreases s.len(),
{
    if s.len() == 0 {
        Seq::empty()
    } else {
        let d = dedup(s.drop_last());
        if d.contains(s.last()) {
            d
        } else {
            d.push(s.last())
        }
    }
}

/// `s` concatenated with itself `n` times.
pub open spec fn repeat_seq(s: Seq<char>, n: nat) -> Seq<char>
    decreases n,
{
    if n == 0 {
        Seq::empty()
    } else {
        repeat_seq(s, (n - 1) as nat) + s
    }
}

pub proof fn lemma_repeat_single(c: char, n: nat)
    ensures
        repeat_seq(seq![c], n).len() == n,
        forall|i: int| 0 <= i < n ==> repeat_seq(seq![c], n)[i] == c,
    decreases n,
{
    if n > 0 {
        lemma_repeat_single(c, (n - 1) as nat);
    }
}

pub open spec fn distinct_seqs(s: Seq<Seq<char>>) -> bool {
    forall|i: int, j: int| 0 <= i < j < s.len() ==> s[i] != s[j]
}

pub proof fn lemma_dedup_props(s: Seq<Seq<char>>)
    ensures
        distinct_seqs(dedup(s)),
        forall|x: Seq<char>| dedup(s).contains(x) <==> s.contains(x),
    decreases s.len(),
{
    if s.len() > 0 {
        lemma_dedup_props(s.drop_last());
        let d = dedup(s.drop_last());
        assert forall|x: Seq<char>| s.contains(x) implies dedup(s).contains(x) by {
            let i = choose|i: int| 0 <= i < s.len() && s[i] == x;
            if i < s.len() - 1 {
                assert(s.drop_last()[i] == x);
                assert(s.drop_last().contains(x));
                if !d.contains(s.last()) {
                    let k = choose|k: int| 0 <= k < d.len() && d[k] == x;
                    assert(d.push(s.last())[k] == x);
                }
            } else {
                if !d.contains(s.last()) {
                    assert(d.push(s.last()).last() == x);
                }
            }
        }
        assert forall|x: Seq<char>| dedup(s).contains(x) implies s.contains(x) by {
            if d.contains(s.last()) {
                assert(s.drop_last().contains(x));
                let i = choose|i: int| 0 <= i < s.drop_last().len() && s.drop_last()[i] == x;
                assert(s[i] == x);
            } else {
                let k = choose|k: int| 0 <= k < dedup(s).len() && dedup(s)[k] == x;
                if k < d.len() {
                    assert(d.contains(x));
                    assert(s.drop_last().contains(x));
                    let i = choose|i: int| 0 <= i < s.drop_last().len() && s.drop_last()[i] == x;
                    assert(s[i] == x);
                } else {
                    assert(x == s.last());
                    assert(s[s.len() - 1] == x);
                }
            }
        }
        if !d.contains(s.last()) {
            assert forall|i: int, j: int| 0 <= i < j < dedup(s).len() implies dedup(s)[i]
                != dedup(s)[j] by {
                if j < d.len() {
                } else {
                    assert(dedup(s)[j] == s.last());
                    assert(d[i] == dedup(s)[i]);
                    assert(d.contains(d[i]) == true);
                    if d[i] == s.last() {
                        assert(d.contains(s.last()));
                    }
                }
            }
        }
    }
}

/// Scans for the next occurrence of the separator at or after `from`.
pub fn find_in(s: &str, c1: char, c2: Option<char>, from: usize, n: usize) -> (k: usize)
    requires
        n == s@.len(),
        from <= n,
    ensures
        k == find_sep(s@, sep_seq(c1, c2), from as int),
        from <= k <= n,
{
    let ghost sep = sep_seq(c1, c2);
    proof {
        lemma_find_sep(s@, sep, from as int);
    }
    let mut i: usize = from;
    loop
        invariant
            n == s@.len(),
            from <= i <= n,
            find_sep(s@, sep, from as int) == find_sep(s@, sep, i as int),
            sep == sep_seq(c1, c2),
        decreases n - i,
    {
        match c2 {
            None => {
                if i >= n {
                    assert(find_sep(s@, sep, i as int) == n);
                    return n;
                }
                let c = s.get_char(i);
                if c == c1 {
                    assert(s@.subrange(i as int, i + 1) =~= sep);
                    return i;
                } else {
                    assert(s@.subrange(i as int, i + 1) != sep) by {
                        assert(s@.subrange(i as int, i + 1)[0] == c);
                    }
                }
            },
            Some(c2v) => {
                if i >= n || i + 1 >= n {
                    assert(find_sep(s@, sep, i as int) == n);
                    return n;
                }
                let ca = s.get_char(i);
                let cb = s.get_char(i + 1);
                if ca == c1 && cb == c2v {
                    assert(s@.subrange(i as int, i + 2) =~= sep);
                    return i;
                } else {
                    assert(s@.subrange(i as int, i + 2) != sep) by {
                        assert(s@.subrange(i as int, i + 2)[0] == ca);
                        assert(s@.subrange(i as int, i + 2)[1] == cb);
                    }
                }
            },
        }
        i = i + 1;
    }
}

/// Splits `s` on every occurrence of the separator given by `c1` and,
/// optionally, a second character `c2`; the result always has at least one
/// piece, and blank pieces are kept.
pub fn split_str(s: &str, c1: char, c2: Option<char>) -> (parts: Vec<String>)
    ensures
        parts.deep_view() == split_by(s@, sep_seq(c1, c2)),
        parts.len() >= 1,
{
    let ghost sep = sep_seq(c1, c2);
    let sl: usize = match c2 {
        None => 1,
        Some(_) => 2,
    };
    let n = s.unicode_len();
    let mut parts: Vec<String> = Vec::new();
    let mut from: usize = 0;
    loop
        invariant
            n == s@.len(),
            from <= n,
            sep == sep_seq(c1, c2),
            sl == sep.len(),
            split_by(s@, sep) == parts.deep_view() + split_from(s@, sep, from as int),
        decreases n - from,
    {
        let k = find_in(s, c1, c2, from, n);
        proof {
            lemma_find_sep(s@, sep, from as int);
        }
        let piece = s.substring_char(from, k).to_owned();
        let end = k < n;
        let ghost old_parts = parts.deep_view();
        parts.push(piece);
        proof {
            assert(parts.deep_view() =~= old_parts.push(s@.subrange(from as int, k as int)));
        }
        if !end {
            proof {
                assert(split_from(s@, sep, from as int) =~= seq![
                    s@.subrange(from as int, n as int),
                ]);
                assert(parts.deep_view() =~= old_parts + split_from(s@, sep, from as int));
            }
            return parts;
        } else {
            proof {
                assert(split_from(s@, sep, from as int) =~= seq![
                    s@.subrange(from as int, k as int),
                ] + split_from(s@, sep, k + sep.len()));
                assert(old_parts + split_from(s@, sep, from as int) =~= parts.deep_view()
                    + split_from(s@, sep, k + sep.len()));
            }
            from = k + sl;
        }
    }
}

/// Keeps the non-empty strings, in order.
pub fn nonblank_vec(parts: &Vec<String>) -> (r: Vec<String>)
    ensures
        r.deep_view() == nonblank(parts.deep_view()),
{
    let ghost pred = |p: Seq<char>| p.len() != 0;
    let mut r: Vec<String> = Vec::new();
    let mut i: usize = 0;
    while i < parts.len()
        invariant
            i <= parts.len(),
            r.deep_view() == parts.deep_view().take(i as int).filter(|p: Seq<char>| p.len() != 0),
        decreases parts.len() - i,
    {
        let ghost prefix = parts.deep_view().take(i as int);
        proof {
            broadcast use Seq::lemma_filter_push;

            assert(parts.deep_view().take(i + 1) =~= prefix.push(parts.deep_view()[i as int]));
        }
        if !parts[i].as_str().is_empty() {
            let ghost old_r = r.deep_view();
            r.push(parts[i].clone());
            proof {
                assert(r.deep_view() =~= old_r.push(parts.deep_view()[i as int]));
            }
        }
        i = i + 1;
    }
    proof {
        assert(parts.deep_view().take(parts.deep_view().len() as int) =~= parts.deep_view());
    }
    r
}

/// Relies on str's PartialEq: two string slices compare equal exactly
/// when their characters do.
pub assume_specification[ <str as PartialEq>::eq ](a: &str, b: &str) -> (r: bool)
    ensures
        r == (a@ == b@),
;

/// Whether some string in `v` has exactly the characters of `x`.
pub fn contains_string(v: &Vec<String>, x: &String) -> (r: bool)
    ensures
        r == v.deep_view().contains(x@),
{
    let mut i: usize = 0;
    while i < v.len()
        invariant
            i <= v.len(),
            forall|j: int| 0 <= j < i ==> v.deep_view()[j] != x@,
        decreases v.len() - i,
    {
        if v[i].eq(x) {
            assert(v.deep_view()[i as int] == x@);
            return true;
        }
        i = i + 1;
    }
    false
}

/// Removes later repetitions: each string keeps its first occurrence only.
pub fn dedup_strings(parts: &Vec<String>) -> (r: Vec<String>)
    ensures
        r.deep_view() == dedup(parts.deep_view()),
{
    let mut r: Vec<String> = Vec::new();
    let mut i: usize = 0;
    while i < parts.len()
        invariant
            i <= parts.len(),
            r.deep_view() == dedup(parts.deep_view().take(i as int)),
        decreases parts.len() - i,
    {
        let ghost prefix = parts.deep_view().take(i as int);
        proof {
            assert(parts.deep_view().take(i + 1).drop_last() =~= prefix);
            assert(parts.deep_view().take(i + 1).last() == parts.deep_view()[i as int]);
        }
        if !contains_string(&r, &parts[i]) {
            let ghost old_r = r.deep_view();
            r.push(parts[i].clone());
            proof {
                assert(r.deep_view() =~= old_r.push(parts.deep_view()[i as int]));
            }
        }
        i = i + 1;
    }
    proof {
        assert(parts.deep_view().take(parts.deep_view().len() as int) =~= parts.deep_view());
    }
    r
}

/// An explicit unique-identifier token: an `@` followed by at least one
/// identifier character (letter, digit or underscore).
pub open spec fn uid_token(s: Seq<char>) -> bool {
    s.len() >= 2 && s[0] == '@' && (forall|j: int| 1 <= j < s.len() ==> is_ident_char(s[j]))
}

/// Decides whether a field is an explicit unique-identifier token.
pub fn is_uid_token(s: &str) -> (r: bool)
    ensures
        r == uid_token(s@),
{
    let n = s.unicode_len();
    if n < 2 {
        return false;
    }
    if s.get_char(0) != '@' {
        return false;
    }
    let mut j: usize = 1;
    while j < n
        invariant
            1 <= j <= n,
            n == s@.len(),
            forall|t: int| 1 <= t < j ==> is_ident_char(s@[t]),
        decreases n - j,
    {
        let c = s.get_char(j);
        let ok = ('0' <= c && c <= '9') || ('A' <= c && c <= 'Z') || ('a' <= c && c <= 'z') || c
            == '_';
        if !ok {
            return false;
        }
        j = j + 1;
    }
    true
}

} // verus!
