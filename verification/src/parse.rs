//! The atom-token grammar and its parser.
//!
//! An atom token is one contiguous field of a structure line:
//! an optional run of digits (an isotope mass number), then a one- or
//! two-letter element symbol (first letter upper case), then an optional
//! sign followed by digits (a formal charge).

use vstd::prelude::*;

use crate::elements::{element_of_symbol, Element};
use crate::molecule::{m_has_uid, mole_wf, Atom, DescartesMole, MoleculeError, Position, RecordModel};
use crate::text::{
    all_digits, dedup, digit_val, digits_end, digits_val, find_in, has_crlf, is_digit, is_lower,
    is_upper, is_uid_token, lemma_digits_end_is, lemma_digits_val_nonneg,
    lemma_digits_val_take_succ, lemma_fields_len, line_sep, nonblank, nonblank_vec, sep_seq,
    split_by, split_str, uid_token,
};

verus! {

/// Length of the element-symbol part: 2 when an upper-case letter is
/// followed by a lower-case one, 1 for a lone upper-case letter, 0 when no
/// symbol starts where the leading digits end.
pub open spec fn token_sym_len(s: Seq<char>) -> int {
    let i = digits_end(s);
    if i < s.len() && is_upper(s[i]) {
        if i + 1 < s.len() && is_lower(s[i + 1]) {
            2
        } else {
            1
        }
    } else {
        0
    }
}

/// Whatever follows the symbol: the charge field of the token.
pub open spec fn token_charge_part(s: Seq<char>) -> Seq<char> {
    s.subrange(digits_end(s) + token_sym_len(s), s.len() as int)
}

/// A well-formed charge field: absent, or a sign followed by at least one
/// digit.
pub open spec fn charge_part_ok(t: Seq<char>) -> bool {
    t.len() == 0 || (t.len() >= 2 && (t[0] == '+' || t[0] == '-') && all_digits(
        t.subrange(1, t.len() as int),
    ))
}

/// The token matches the atom grammar: digits, then a symbol, then an
/// optional signed charge, with nothing left over.
pub open spec fn token_shaped(s: Seq<char>) -> bool {
    token_sym_len(s) > 0 && charge_part_ok(token_charge_part(s))
}

/// The element the symbol part names, if it is a known symbol.
pub open spec fn token_element(s: Seq<char>) -> Option<Element> {
    let i = digits_end(s);
    element_of_symbol(s[i], if token_sym_len(s) == 2 {
        Some(s[i + 1])
    } else {
        None
    })
}

/// The isotope mass number the leading digits denote, if there are any.
pub open spec fn token_isotope(s: Seq<char>) -> Option<int> {
    if digits_end(s) == 0 {
        None
    } else {
        Some(digits_val(s.take(digits_end(s))))
    }
}

/// The signed formal charge the trailing field denotes; zero when absent.
pub open spec fn token_charge(s: Seq<char>) -> int {
    let t = token_charge_part(s);
    if t.len() == 0 {
        0
    } else if t[0] == '+' {
        digits_val(t.subrange(1, t.len() as int))
    } else {
        -digits_val(t.subrange(1, t.len() as int))
    }
}

/// The token's numbers fit the atom's fields: an isotope mass number in a
/// byte, a charge in a signed byte.
pub open spec fn token_fits(s: Seq<char>) -> bool {
    (match token_isotope(s) {
        None => true,
        Some(v) => v <= 255,
    }) && -128 <= token_charge(s) <= 127
}

/// The isotope field as stored: the mass number narrowed to a byte.
pub open spec fn token_isotope_u8(s: Seq<char>) -> Option<u8> {
    match token_isotope(s) {
        None => None,
        Some(v) => Some(v as u8),
    }
}

/// Parses one atom token.
///
/// Succeeds exactly on tokens that match the grammar, name a known
/// element, and whose numbers fit; the parsed atom's fields reproduce the
/// token's isotope, element and charge. A shaped token with an unknown
/// symbol is an `UnknownElement`; anything else is a `CantParseToken`.
pub fn parse_atom_token(s: &str) -> (r: Result<Atom, MoleculeError>)
    ensures
        r is Ok <==> token_shaped(s@) && token_element(s@) is Some && token_fits(s@),
        r matches Ok(a) ==> Some(a.element) == token_element(s@) && a.isotope == token_isotope_u8(
            s@,
        ) && a.formal_charge as int == token_charge(s@),
        r matches Err(e) ==> match e {
            MoleculeError::UnknownElement(m) => m@ == s@ && token_shaped(s@) && token_element(s@)
                is None,
            MoleculeError::CantParseToken(m) => m@ == s@ && (!token_shaped(s@) || (token_element(
                s@,
            ) is Some && !token_fits(s@))),
            _ => false,
        },
{
    let n = s.unicode_len();

    // Leading digits: the isotope mass number, capped once it can no
    // longer fit a byte.
    let mut i: usize = 0;
    let mut iso: u32 = 0;
    loop
        invariant
            n == s@.len(),
            i <= n,
            forall|j: int| 0 <= j < i ==> is_digit(s@[j]),
            iso <= 2559,
            digits_val(s@.take(i as int)) <= 255 ==> iso == digits_val(s@.take(i as int)),
            digits_val(s@.take(i as int)) > 255 ==> iso > 255,
        ensures
            n == s@.len(),
            i <= n,
            forall|j: int| 0 <= j < i ==> is_digit(s@[j]),
            i < n ==> !is_digit(s@[i as int]),
            iso <= 2559,
            digits_val(s@.take(i as int)) <= 255 ==> iso == digits_val(s@.take(i as int)),
            digits_val(s@.take(i as int)) > 255 ==> iso > 255,
        decreases n - i,
    {
        if i >= n {
            break ;
        }
        let c = s.get_char(i);
        if !('0' <= c && c <= '9') {
            break ;
        }
        proof {
            lemma_digits_val_take_succ(s@, i as int);
            assert(all_digits(s@.take(i as int)));
            lemma_digits_val_nonneg(s@.take(i as int));
        }
        let d = (c as u32) - ('0' as u32);
        if iso <= 255 {
            iso = iso * 10 + d;
        }
        i = i + 1;
    }
    proof {
        lemma_digits_end_is(s@, i as int);
    }

    // The element symbol: one upper-case letter, optionally followed by a
    // lower-case one.
    if i >= n {
        assert(token_sym_len(s@) == 0);
        return Err(MoleculeError::CantParseToken(s.to_owned()));
    }
    let c1 = s.get_char(i);
    if !('A' <= c1 && c1 <= 'Z') {
        assert(token_sym_len(s@) == 0);
        return Err(MoleculeError::CantParseToken(s.to_owned()));
    }
    let mut j = i + 1;
    let mut c2: Option<char> = None;
    if j < n {
        let c = s.get_char(j);
        if 'a' <= c && c <= 'z' {
            c2 = Some(c);
            j = j + 1;
        }
    }
    assert(token_sym_len(s@) == j - i);

    // The charge field: empty, or a sign and at least one digit, capped
    // once it can no longer fit a signed byte.
    let ghost cpart = token_charge_part(s@);
    proof {
        assert(cpart =~= s@.subrange(j as int, n as int));
    }
    let mut minus = false;
    let mut mag: u32 = 0;
    if j < n {
        let cs = s.get_char(j);
        assert(cpart[0] == s@[j as int]);
        if !(cs == '+' || cs == '-') {
            assert(!charge_part_ok(cpart));
            return Err(MoleculeError::CantParseToken(s.to_owned()));
        }
        minus = cs == '-';
        if j + 1 >= n {
            assert(cpart.len() == 1);
            assert(!charge_part_ok(cpart));
            return Err(MoleculeError::CantParseToken(s.to_owned()));
        }
        let ghost mag_digits = s@.subrange(j + 1, n as int);
        proof {
            assert(cpart.subrange(1, cpart.len() as int) =~= mag_digits);
        }
        let mut k = j + 1;
        while k < n
            invariant
                n == s@.len(),
                j + 1 <= k <= n,
                j < n,
                cpart == token_charge_part(s@),
                cpart == s@.subrange(j as int, n as int),
                cpart.subrange(1, cpart.len() as int) == mag_digits,
                cpart[0] == '+' || cpart[0] == '-',
                mag_digits == s@.subrange(j + 1, n as int),
                forall|t: int| j + 1 <= t < k ==> is_digit(s@[t]),
                mag <= 2559,
                digits_val(mag_digits.take(k - j - 1)) <= 255 ==> mag == digits_val(
                    mag_digits.take(k - j - 1),
                ),
                digits_val(mag_digits.take(k - j - 1)) > 255 ==> mag > 255,
            decreases n - k,
        {
            let c = s.get_char(k);
            assert(mag_digits[k - j - 1] == s@[k as int]);
            if !('0' <= c && c <= '9') {
                assert(!is_digit(mag_digits[k - j - 1]));
                assert(!all_digits(cpart.subrange(1, cpart.len() as int)));
                assert(!charge_part_ok(cpart));
                return Err(MoleculeError::CantParseToken(s.to_owned()));
            }
            proof {
                lemma_digits_val_take_succ(mag_digits, k - j - 1);
                assert(all_digits(mag_digits.take(k - j - 1)));
                lemma_digits_val_nonneg(mag_digits.take(k - j - 1));
            }
            let d = (c as u32) - ('0' as u32);
            if mag <= 255 {
                mag = mag * 10 + d;
            }
            k = k + 1;
        }
        proof {
            assert(mag_digits.take(k - j - 1) =~= mag_digits);
        }
        assert(charge_part_ok(cpart));
    } else {
        assert(cpart.len() == 0);
    }
    assert(token_shaped(s@));

    // The symbol must name a known element.
    let element = match Element::from_symbol_chars(c1, c2) {
        Some(e) => e,
        None => {
            return Err(MoleculeError::UnknownElement(s.to_owned()));
        },
    };

    // The numbers must fit the atom's fields.
    if minus {
        if mag > 128 {
            assert(!token_fits(s@));
            return Err(MoleculeError::CantParseToken(s.to_owned()));
        }
    } else {
        if mag > 127 {
            assert(!token_fits(s@));
            return Err(MoleculeError::CantParseToken(s.to_owned()));
        }
    }
    let charge: i16 = if minus {
        -(mag as i16)
    } else {
        mag as i16
    };
    assert(charge as int == token_charge(s@));
    let isotope: Option<u8> = if i > 0 {
        if iso > 255 {
            assert(!token_fits(s@));
            return Err(MoleculeError::CantParseToken(s.to_owned()));
        }
        Some(iso as u8)
    } else {
        None
    };
    assert(token_fits(s@));

    Ok(Atom { element, formal_charge: charge as i8, isotope })
}

/// The non-empty lines of a buffer, split on the line separator the whole
/// buffer uses.
pub open spec fn text_lines(t: Seq<char>) -> Seq<Seq<char>> {
    nonblank(split_by(t, line_sep(t)))
}

/// The non-empty space-separated fields of one line.
pub open spec fn line_fields(l: Seq<char>) -> Seq<Seq<char>> {
    nonblank(split_by(l, seq![' ']))
}

/// A structurally valid line: an atom token that parses, and at least
/// three coordinate fields after it.
pub open spec fn line_ok(l: Seq<char>) -> bool {
    let fs = line_fields(l);
    fs.len() >= 4 && token_shaped(fs[0]) && token_element(fs[0]) is Some && token_fits(fs[0])
}

/// The explicit unique identifier of a line, when its fifth field is an
/// `@`-token.
pub open spec fn line_uid(l: Seq<char>) -> Option<Seq<char>> {
    let fs = line_fields(l);
    if fs.len() >= 5 && uid_token(fs[4]) {
        Some(fs[4])
    } else {
        None
    }
}

/// The group tags of a line: the fields after the coordinates, minus the
/// explicit identifier if there is one.
pub open spec fn line_tags(l: Seq<char>) -> Seq<Seq<char>> {
    let fs = line_fields(l);
    if fs.len() < 4 {
        Seq::empty()
    } else if fs.len() >= 5 && uid_token(fs[4]) {
        fs.subrange(5, fs.len() as int)
    } else {
        fs.subrange(4, fs.len() as int)
    }
}

/// The record decoded from a line carries exactly the line's atom, tags
/// (first occurrences) and identifier; a generated identifier is
/// non-empty and never starts with `@`.
pub open spec fn rec_matches_line(rec: RecordModel, l: Seq<char>) -> bool {
    let fs = line_fields(l);
    &&& Some(rec.atom.element) == token_element(fs[0])
    &&& rec.atom.isotope == token_isotope_u8(fs[0])
    &&& rec.atom.formal_charge as int == token_charge(fs[0])
    &&& rec.tags == dedup(line_tags(l))
    &&& match line_uid(l) {
        Some(u) => rec.uid == u,
        None => rec.uid.len() > 0 && rec.uid[0] != '@',
    }
}

/// The converter, called on some string slice holding exactly `s`, may
/// return `out`.
pub open spec fn conv_gave<F: Fn(&str) -> Option<u64>>(conv: F, s: Seq<char>, out: Option<u64>) -> bool {
    exists|a: &str| a@ == s && conv.ensures((a,), out)
}

/// An upper bound on the length of a generated identifier seed.
pub open spec fn gen_bound(n: int) -> int {
    if n >= 26 {
        n
    } else {
        26
    }
}

/// The machine limit under which identifier generation can always find a
/// fresh identifier: the buffer and its line count stay clear of the
/// address-space bound.
pub open spec fn text_fits(t: Seq<char>) -> bool {
    t.len() + text_lines(t).len() + 30 <= usize::MAX
}

/// No two lines carry the same explicit unique identifier.
pub open spec fn uids_distinct(ls: Seq<Seq<char>>) -> bool {
    forall|a: int, b: int|
        0 <= a < b < ls.len() ==> !(line_uid(#[trigger] ls[a]) is Some && line_uid(ls[a])
            == line_uid(#[trigger] ls[b]))
}

/// The parse stopped at line `j` with error `e`: every earlier line is
/// structurally valid, and `e` names exactly what is wrong at `j`.
pub open spec fn parse_err_at<F: Fn(&str) -> Option<u64>>(
    t: Seq<char>,
    conv: F,
    j: int,
    e: MoleculeError,
) -> bool {
    let ls = text_lines(t);
    let l = ls[j];
    let fs = line_fields(l);
    &&& 0 <= j < ls.len()
    &&& forall|j2: int| 0 <= j2 < j ==> line_ok(#[trigger] ls[j2])
    &&& match e {
        MoleculeError::CantParseLine(m) => m@ == l && fs.len() == 0,
        MoleculeError::CantParseToken(m) => fs.len() > 0 && m@ == fs[0] && (!token_shaped(fs[0])
            || (token_element(fs[0]) is Some && !token_fits(fs[0]))),
        MoleculeError::UnknownElement(m) => fs.len() > 0 && m@ == fs[0] && token_shaped(fs[0])
            && token_element(fs[0]) is None,
        MoleculeError::InvalidPosition(m) => fs.len() > 0 && token_shaped(fs[0]) && token_element(
            fs[0],
        ) is Some && token_fits(fs[0]) && ((fs.len() < 4 && m@ == l) || (fs.len() >= 4 && ((m@
            == seq!['1'] && conv_gave(conv, fs[1], None::<u64>)) || (m@ == seq!['2'] && conv_gave(
            conv,
            fs[2],
            None::<u64>,
        )) || (m@ == seq!['3'] && conv_gave(conv, fs[3], None::<u64>))))),
        MoleculeError::DuplicatedUniqId(d) => line_ok(l) && ((line_uid(l) == Some(d@) && exists|
            j2: int,
        |
            0 <= j2 < j && line_uid(#[trigger] ls[j2]) == Some(d@)) || !text_fits(t)),
    }
}

/// What a successful parse returns.
pub type ParseResult = Result<DescartesMole, MoleculeError>;

/// Every line of the buffer is structurally valid.
pub open spec fn all_lines_ok(t: Seq<char>) -> bool {
    forall|j: int| 0 <= j < text_lines(t).len() ==> line_ok(#[trigger] text_lines(t)[j])
}

/// What a successful parse guarantees: a well-formed molecule with one
/// record per non-empty line, in source order, each matching its line,
/// its coordinates being values the converter returned for the line's
/// coordinate fields.
pub open spec fn parse_ok_matches<F: Fn(&str) -> Option<u64>>(
    t: Seq<char>,
    conv: F,
    m: Seq<RecordModel>,
) -> bool {
    let ls = text_lines(t);
    &&& mole_wf(m)
    &&& m.len() == ls.len()
    &&& all_lines_ok(t)
    &&& forall|j: int| 0 <= j < ls.len() ==> rec_matches_line(#[trigger] m[j], ls[j])
    &&& forall|j: int|
        0 <= j < ls.len() ==> {
            let fs = line_fields(ls[j]);
            conv_gave(conv, fs[1], Some(#[trigger] m[j].position.x)) && conv_gave(
                conv,
                fs[2],
                Some(m[j].position.y),
            ) && conv_gave(conv, fs[3], Some(m[j].position.z))
        }
}

/// Generated identifiers never clash: when no line of the buffer carries
/// an explicit identifier (and the buffer stays clear of the machine
/// limit), a failed parse is never a `DuplicatedUniqId` — identical
/// lines included, since each absent identifier is generated fresh.
pub proof fn lemma_no_spurious_uid_clash<F: Fn(&str) -> Option<u64>>(
    t: Seq<char>,
    conv: F,
    e: MoleculeError,
    j: int,
)
    requires
        parse_err_at(t, conv, j, e),
        text_fits(t),
        forall|k: int| 0 <= k < text_lines(t).len() ==> line_uid(#[trigger] text_lines(t)[k]) is None,
    ensures
        !(e matches MoleculeError::DuplicatedUniqId(_)),
{
    if e matches MoleculeError::DuplicatedUniqId(d) {
        assert(line_uid(text_lines(t)[j]) is None);
    }
}

/// Parses a whole structure buffer into a molecule, decoding coordinate
/// fields through a caller-supplied converter (`None` marks a field that
/// is not a number).
///
/// All-or-nothing: the first offending line aborts the parse with an
/// error naming it. On success the molecule is well formed and has one
/// record per non-empty line, in source order, each matching its line.
/// When every line is structurally valid and no explicit identifier
/// repeats, only a rejected coordinate can still fail the parse.
#[verifier::rlimit(50)]
pub fn parse_structure<F: Fn(&str) -> Option<u64>>(text: &str, conv: F) -> (r: ParseResult)
    requires
        forall|s: &str| conv.requires((s,)),
    ensures
        r matches Ok(m) ==> parse_ok_matches(text@, conv, m@),
        r matches Err(e) ==> exists|j: int| #[trigger] parse_err_at(text@, conv, j, e),
        all_lines_ok(text@) && uids_distinct(text_lines(text@)) && text_fits(text@) ==> (r is Ok
            || (r matches Err(MoleculeError::InvalidPosition(_)))),
{
    let n = text.unicode_len();
    let ghost t = text@;
    let crlf = find_in(text, '\r', Some('\n'), 0, n) < n;
    proof {
        assert(sep_seq('\r', Some('\n')) =~= seq!['\r', '\n']);
        assert(crlf == has_crlf(t));
    }
    let raw_lines = if crlf {
        split_str(text, '\r', Some('\n'))
    } else {
        proof {
            assert(sep_seq('\n', None) =~= seq!['\n']);
            assert(line_sep(t) =~= seq!['\n']);
        }
        split_str(text, '\n', None)
    };
    assert(raw_lines.deep_view() == split_by(t, line_sep(t)));
    let lines = nonblank_vec(&raw_lines);
    let ghost ls = text_lines(t);
    assert(lines.deep_view() == ls);
    proof {
        lemma_fields_len(t, line_sep(t));
    }

    let mut mole = DescartesMole::new();
    let mut k: usize = 0;
    while k < lines.len()
        invariant
            n == t.len(),
            t == text@,
            ls == text_lines(t),
            lines.deep_view() == ls,
            k <= lines.len(),
            mole@.len() == k,
            mole_wf(mole@),
            forall|s: &str| conv.requires((s,)),
            forall|j: int| 0 <= j < ls.len() ==> #[trigger] ls[j].len() <= n,
            forall|j: int| 0 <= j < k ==> line_ok(#[trigger] ls[j]),
            forall|j: int| 0 <= j < k ==> rec_matches_line(#[trigger] mole@[j], ls[j]),
            forall|j: int|
                0 <= j < k ==> {
                    let fs = line_fields(ls[j]);
                    conv_gave(conv, fs[1], Some(#[trigger] mole@[j].position.x)) && conv_gave(
                        conv,
                        fs[2],
                        Some(mole@[j].position.y),
                    ) && conv_gave(conv, fs[3], Some(mole@[j].position.z))
                },
            forall|j: int|
                0 <= j < k ==> #[trigger] mole@[j].uid.len() <= gen_bound(n as int) + k,
        decreases lines.len() - k,
    {
        let line: &String = &lines[k];
        assert(line@ == ls[k as int]);
        let ghost l = ls[k as int];
        let fields_raw = split_str(line.as_str(), ' ', None);
        proof {
            assert(sep_seq(' ', None) =~= seq![' ']);
        }
        let fields = nonblank_vec(&fields_raw);
        let ghost fs = line_fields(l);
        assert(fields.deep_view() == fs);
        proof {
            lemma_fields_len(l, seq![' ']);
        }

        if fields.len() == 0 {
            let e = MoleculeError::CantParseLine(line.clone());
            assert(parse_err_at(t, conv, k as int, e));
            return Err(e);
        }
        let atom = match parse_atom_token(fields[0].as_str()) {
            Ok(a) => a,
            Err(e0) => {
                proof {
                    assert(fields[0]@ == fs[0]);
                    assert(parse_err_at(t, conv, k as int, e0));
                }
                return Err(e0);
            },
        };
        if fields.len() < 4 {
            let e = MoleculeError::InvalidPosition(line.clone());
            assert(parse_err_at(t, conv, k as int, e));
            return Err(e);
        }
        let xs = fields[1].as_str();
        let x = match conv(xs) {
            Some(b) => b,
            None => {
                proof {
                    reveal_strlit("1");
                    assert(xs@ == fs[1] && conv.ensures((xs,), None::<u64>));
                    assert(conv_gave(conv, fs[1], None::<u64>));
                    assert(("1")@ =~= seq!['1']);
                }
                let e = MoleculeError::InvalidPosition("1".to_owned());
                assert(parse_err_at(t, conv, k as int, e));
                return Err(e);
            },
        };
        let ys = fields[2].as_str();
        let y = match conv(ys) {
            Some(b) => b,
            None => {
                proof {
                    reveal_strlit("2");
                    assert(ys@ == fs[2] && conv.ensures((ys,), None::<u64>));
                    assert(conv_gave(conv, fs[2], None::<u64>));
                    assert(("2")@ =~= seq!['2']);
                }
                let e = MoleculeError::InvalidPosition("2".to_owned());
                assert(parse_err_at(t, conv, k as int, e));
                return Err(e);
            },
        };
        let zs = fields[3].as_str();
        let z = match conv(zs) {
            Some(b) => b,
            None => {
                proof {
                    reveal_strlit("3");
                    assert(zs@ == fs[3] && conv.ensures((zs,), None::<u64>));
                    assert(conv_gave(conv, fs[3], None::<u64>));
                    assert(("3")@ =~= seq!['3']);
                }
                let e = MoleculeError::InvalidPosition("3".to_owned());
                assert(parse_err_at(t, conv, k as int, e));
                return Err(e);
            },
        };
        let position = Position { x, y, z };
        proof {
            assert(conv_gave(conv, fs[1], Some(x)));
            assert(conv_gave(conv, fs[2], Some(y)));
            assert(conv_gave(conv, fs[3], Some(z)));
        }

        let mut uid_opt: Option<String> = None;
        let mut tags: Vec<String> = Vec::new();
        let mut start: usize = 4;
        if fields.len() >= 5 && is_uid_token(fields[4].as_str()) {
            uid_opt = Some(fields[4].clone());
            start = 5;
            assert(line_uid(l) == Some(fs[4]));
        } else {
            assert(line_uid(l) is None);
        }
        let mut ti: usize = start;
        while ti < fields.len()
            invariant
                start <= ti <= fields.len(),
                fields.deep_view() == fs,
                tags.deep_view() == fs.subrange(start as int, ti as int),
            decreases fields.len() - ti,
        {
            let ghost old_tags = tags.deep_view();
            tags.push(fields[ti].clone());
            proof {
                assert(tags.deep_view() =~= old_tags.push(fs[ti as int]));
                assert(tags.deep_view() =~= fs.subrange(start as int, ti + 1));
            }
            ti = ti + 1;
        }
        proof {
            assert(tags.deep_view() =~= line_tags(l));
        }

        let ghost old_mole = mole@;
        match mole.add_atom(atom, position, tags, uid_opt) {
            Ok(u) => {
                proof {
                    assert(mole@.len() == k + 1);
                    assert(rec_matches_line(mole@[k as int], l));
                    if uid_opt is Some {
                        assert(fs[4].len() <= l.len());
                        assert(u@.len() <= n);
                    }
                    assert forall|j: int| 0 <= j < k + 1 implies #[trigger] mole@[j].uid.len()
                        <= gen_bound(n as int) + k + 1 by {
                        if j < k {
                            assert(mole@[j] == old_mole[j]);
                        }
                    }
                }
            },
            Err(e0) => {
                proof {
                    let d: Seq<char> = match &e0 {
                        MoleculeError::DuplicatedUniqId(d0) => d0@,
                        _ => arbitrary(),
                    };
                    if uid_opt is Some {
                        assert(m_has_uid(old_mole, d));
                        let w = choose|w: int| 0 <= w < old_mole.len() && old_mole[w].uid == d;
                        assert(rec_matches_line(old_mole[w], ls[w]));
                        assert(d[0] == '@');
                        assert(line_uid(ls[w]) == Some(d));
                        assert(parse_err_at(t, conv, k as int, e0));
                    } else {
                        if text_fits(t) {
                            let w = choose|w: int|
                                0 <= w < old_mole.len() && #[trigger] old_mole[w].uid.len() + 2
                                    > usize::MAX;
                            assert(old_mole[w].uid.len() <= gen_bound(n as int) + k);
                            assert(false);
                        }
                        assert(parse_err_at(t, conv, k as int, e0));
                    }
                }
                return Err(e0);
            },
        }
        k = k + 1;
    }
    Ok(mole)
}

} // verus!

