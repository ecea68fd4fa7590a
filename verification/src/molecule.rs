use vstd::prelude::*;
use vstd::seq_lib::*;

use crate::elements::Element;
use crate::text::{
    contains_string, dedup, dedup_strings, distinct_seqs, is_digit, is_upper, lemma_dedup_props,
    lemma_repeat_single, repeat_seq,
};

verus! {

/// One atom of a molecule: its element, its formal charge, and an optional
/// isotope mass number. Immutable once constructed.
#[derive(Clone, Copy, Debug, PartialEq, Eq, Structural)]
pub struct Atom {
    pub element: Element,
    pub formal_charge: i8,
    pub isotope: Option<u8>,
}

impl Atom {
    /// The chemical element of this atom.
    pub fn get_element(&self) -> (r: Element)
        ensures
            r == self.element,
    {
        self.element
    }

    /// The formal charge of this atom; zero unless the source token carried
    /// an explicit signed charge.
    pub fn get_formal_charge(&self) -> (r: i8)
        ensures
            r == self.formal_charge,
    {
        self.formal_charge
    }
}

/// The ways a structure text or a molecule edit can be rejected. Each
/// variant carries the offending token, line, field index or identifier.
#[derive(Debug)]
pub enum MoleculeError {
    CantParseLine(String),
    CantParseToken(String),
    UnknownElement(String),
    InvalidPosition(String),
    DuplicatedUniqId(String),
}

/// A point in space. Each component is the IEEE-754 bit pattern of a
/// double-precision coordinate; this library stores and routes these
/// scalars but never computes on them.
#[derive(Clone, Copy, Debug, PartialEq, Eq, Structural)]
pub struct Position {
    pub x: u64,
    pub y: u64,
    pub z: u64,
}

/// The mathematical content of one atom record: what the contracts of the
/// molecule operations speak about.
pub ghost struct RecordModel {
    pub atom: Atom,
    pub position: Position,
    pub tags: Seq<Seq<char>>,
    pub uid: Seq<char>,
}

/// One record of a molecule: an atom, where it sits, the group tags it
/// carries, and its unique identifier.
#[derive(Debug)]
pub struct AtomRecord {
    pub atom: Atom,
    pub position: Position,
    pub groups: Vec<String>,
    pub uid: String,
}

impl View for AtomRecord {
    type V = RecordModel;

    open spec fn view(&self) -> RecordModel {
        RecordModel {
            atom: self.atom,
            position: self.position,
            tags: self.groups.deep_view(),
            uid: self.uid@,
        }
    }
}

/// Clones a vector of strings, keeping the characters of every element.
fn clone_strings(v: &Vec<String>) -> (r: Vec<String>)
    ensures
        r.deep_view() == v.deep_view(),
{
    let mut r: Vec<String> = Vec::new();
    let mut i: usize = 0;
    while i < v.len()
        invariant
            i <= v.len(),
            r.deep_view() == v.deep_view().take(i as int),
        decreases v.len() - i,
    {
        let ghost old_r = r.deep_view();
        r.push(v[i].clone());
        proof {
            assert(r.deep_view() =~= old_r.push(v.deep_view()[i as int]));
            assert(r.deep_view() =~= v.deep_view().take(i + 1));
        }
        i = i + 1;
    }
    proof {
        assert(v.deep_view().take(v.deep_view().len() as int) =~= v.deep_view());
    }
    r
}

impl Clone for AtomRecord {
    fn clone(&self) -> (r: Self)
        ensures
            r@ == self@,
    {
        AtomRecord {
            atom: self.atom,
            position: self.position,
            groups: clone_strings(&self.groups),
            uid: self.uid.clone(),
        }
    }
}

/// A molecule: an ordered collection of atom records, addressed by group
/// tags, whose unique identifiers are pairwise distinct whenever the
/// molecule is well formed.
#[derive(Debug)]
pub struct DescartesMole {
    atoms: Vec<AtomRecord>,
}

impl View for DescartesMole {
    type V = Seq<RecordModel>;

    closed spec fn view(&self) -> Seq<RecordModel> {
        Seq::new(self.atoms@.len(), |i: int| self.atoms@[i]@)
    }
}

/// A record's own invariant: no tag occurs on it twice.
pub open spec fn rec_wf(r: RecordModel) -> bool {
    distinct_seqs(r.tags)
}

/// The molecule invariant: unique identifiers are pairwise distinct and
/// every record is well formed.
pub open spec fn mole_wf(m: Seq<RecordModel>) -> bool {
    &&& forall|i: int, j: int| 0 <= i < j < m.len() ==> m[i].uid != m[j].uid
    &&& forall|i: int| 0 <= i < m.len() ==> rec_wf(#[trigger] m[i])
}

/// Some record of `m` carries the unique identifier `u`.
pub open spec fn m_has_uid(m: Seq<RecordModel>, u: Seq<char>) -> bool {
    exists|i: int| 0 <= i < m.len() && m[i].uid == u
}

/// The records of `m` tagged with `g`, in order.
pub open spec fn group_of(m: Seq<RecordModel>, g: Seq<char>) -> Seq<RecordModel> {
    m.filter(|r: RecordModel| r.tags.contains(g))
}

/// The view of a vector of records.
pub open spec fn recs_view(v: Seq<AtomRecord>) -> Seq<RecordModel> {
    Seq::new(v.len(), |i: int| v[i]@)
}

/// Relies on rusty_ulid::generate_ulid_string: a ULID renders as exactly
/// 26 Crockford base-32 characters, which are decimal digits and
/// upper-case letters.
#[verifier::external_body]
fn generate_uid() -> (r: String)
    ensures
        r@.len() == 26,
        forall|i: int| 0 <= i < r@.len() ==> is_digit(#[trigger] r@[i]) || is_upper(r@[i]),
{
    rusty_ulid::generate_ulid_string()
}

/// Relies on str::repeat: the result is the string repeated `n` times;
/// it panics only when the resulting length overflows.
#[verifier::external_body]
fn str_repeat(s: &str, n: usize) -> (r: String)
    requires
        s@.len() * n <= usize::MAX,
    ensures
        r@ == repeat_seq(s@, n as nat),
{
    s.repeat(n)
}

impl DescartesMole {
    /// An empty molecule.
    pub fn new() -> (r: DescartesMole)
        ensures
            r@ == Seq::<RecordModel>::empty(),
            mole_wf(r@),
    {
        let r = DescartesMole { atoms: Vec::new() };
        proof {
            assert(r@ =~= Seq::<RecordModel>::empty());
        }
        r
    }

    /// The unique identifiers of all records, in record order.
    pub fn get_uids(&self) -> (r: Vec<String>)
        ensures
            r.deep_view() == self@.map_values(|rec: RecordModel| rec.uid),
    {
        let mut r: Vec<String> = Vec::new();
        let mut i: usize = 0;
        while i < self.atoms.len()
            invariant
                i <= self.atoms.len(),
                self@.len() == self.atoms@.len(),
                forall|j: int| 0 <= j < self@.len() ==> self@[j] == self.atoms@[j]@,
                r.deep_view() == self@.map_values(|rec: RecordModel| rec.uid).take(i as int),
            decreases self.atoms.len() - i,
        {
            let ghost old_r = r.deep_view();
            r.push(self.atoms[i].uid.clone());
            proof {
                assert(r.deep_view() =~= old_r.push(self.atoms@[i as int].uid@));
                assert(r.deep_view() =~= self@.map_values(|rec: RecordModel| rec.uid).take(i + 1));
            }
            i = i + 1;
        }
        proof {
            let m = self@.map_values(|rec: RecordModel| rec.uid);
            assert(m.take(m.len() as int) =~= m);
        }
        r
    }

    /// Whether some record carries this unique identifier.
    pub fn contains_uid(&self, u: &str) -> (r: bool)
        ensures
            r == m_has_uid(self@, u@),
    {
        let mut i: usize = 0;
        while i < self.atoms.len()
            invariant
                i <= self.atoms.len(),
                self@.len() == self.atoms@.len(),
                forall|j: int| 0 <= j < self@.len() ==> self@[j] == self.atoms@[j]@,
                forall|j: int| 0 <= j < i ==> self@[j].uid != u@,
            decreases self.atoms.len() - i,
    {
            if self.atoms[i].uid.as_str().eq(u) {
                assert(self@[i as int].uid == u@);
                return true;
            }
            i = i + 1;
        }
        false
    }

    /// A string that no current record uses as its unique identifier and
    /// that no explicit `@`-token can ever denote; `None` only in the
    /// degenerate case where an identifier already nearly fills a machine
    /// word.
    fn fresh_uid(&self) -> (r: Option<String>)
        ensures
            r matches Some(u) ==> !m_has_uid(self@, u@) && u@.len() > 0 && u@[0] != '@',
            r matches Some(u) ==> u@.len() == 1 || exists|i: int|
                0 <= i < self@.len() && u@.len() == #[trigger] self@[i].uid.len() + 1,
            r is None ==> exists|i: int|
                0 <= i < self@.len() && #[trigger] self@[i].uid.len() + 2 > usize::MAX,
    {
        let mut maxlen: usize = 0;
        let mut i: usize = 0;
        while i < self.atoms.len()
            invariant
                i <= self.atoms.len(),
                self@.len() == self.atoms@.len(),
                forall|j: int| 0 <= j < self@.len() ==> self@[j] == self.atoms@[j]@,
                forall|j: int| 0 <= j < i ==> #[trigger] self@[j].uid.len() <= maxlen,
                maxlen == 0 || exists|j: int| 0 <= j < i && #[trigger] self@[j].uid.len() == maxlen,
            decreases self.atoms.len() - i,
        {
            let l = self.atoms[i].uid.as_str().unicode_len();
            if l > maxlen {
                maxlen = l;
                assert(self@[i as int].uid.len() == maxlen);
            } else {
                assert(self@[i as int].uid.len() <= maxlen);
            }
            i = i + 1;
        }
        if maxlen >= usize::MAX - 1 {
            assert(maxlen > 0);
            return None;
        }
        proof {
            reveal_strlit("U");
            assert("U"@ =~= seq!['U']);
            lemma_repeat_single('U', (maxlen + 1) as nat);
        }
        let u = str_repeat("U", maxlen + 1);
        assert(u@.len() == maxlen + 1);
        assert(u@[0] == 'U');
        assert forall|j: int| 0 <= j < self@.len() implies self@[j].uid != u@ by {
            assert(self@[j].uid.len() <= maxlen);
        }
        assert(!m_has_uid(self@, u@));
        Some(u)
    }

    /// Appends one atom record.
    ///
    /// With an explicit identifier the call fails exactly when that
    /// identifier is already present, and the molecule is unchanged on
    /// failure. Without one, a fresh identifier is chosen: it is not in
    /// use, does not start with `@`, and the call succeeds (failure is
    /// confined to the degenerate case of an identifier nearly filling a
    /// machine word). Duplicate tags in `groups` are dropped, first
    /// occurrences kept. Returns the identifier of the new record.
    pub fn add_atom(
        &mut self,
        atom: Atom,
        position: Position,
        groups: Vec<String>,
        uid: Option<String>,
    ) -> (r: Result<String, MoleculeError>)
        ensures
            match r {
                Ok(u) => {
                    &&& final(self)@ == old(self)@.push(
                        RecordModel {
                            atom,
                            position,
                            tags: dedup(groups.deep_view()),
                            uid: u@,
                        },
                    )
                    &&& !m_has_uid(old(self)@, u@)
                    &&& match uid {
                        Some(u0) => u@ == u0@,
                        None => u@.len() > 0 && u@[0] != '@' && (u@.len() <= 26 || exists|i: int|
                            0 <= i < old(self)@.len() && u@.len() <= #[trigger] old(
                                self,
                            )@[i].uid.len() + 1),
                    }
                },
                Err(e) => final(self)@ == old(self)@ && match e {
                    MoleculeError::DuplicatedUniqId(d) => match uid {
                        Some(u0) => d@ == u0@ && m_has_uid(old(self)@, u0@),
                        None => m_has_uid(old(self)@, d@),
                    },
                    _ => false,
                },
            },
            uid matches Some(u0) ==> (r is Err <==> m_has_uid(old(self)@, u0@)),
            uid is None ==> (r is Ok || exists|i: int|
                0 <= i < old(self)@.len() && #[trigger] old(self)@[i].uid.len() + 2 > usize::MAX),
            mole_wf(old(self)@) && r is Ok ==> mole_wf(final(self)@),
    {
        let u: String = match uid {
            Some(u0) => {
                if self.contains_uid(u0.as_str()) {
                    return Err(MoleculeError::DuplicatedUniqId(u0));
                }
                u0
            },
            None => {
                let g0 = generate_uid();
                if !self.contains_uid(g0.as_str()) {
                    assert(g0@[0] != '@');
                    g0
                } else {
                    match self.fresh_uid() {
                        Some(u1) => u1,
                        None => {
                            return Err(MoleculeError::DuplicatedUniqId(g0));
                        },
                    }
                }
            },
        };
        let tags = dedup_strings(&groups);
        proof {
            lemma_dedup_props(groups.deep_view());
        }
        let rec = AtomRecord { atom, position, groups: tags, uid: u.clone() };
        let ghost old_m = self@;
        self.atoms.push(rec);
        proof {
            assert(self@ =~= old_m.push(
                RecordModel { atom, position, tags: dedup(groups.deep_view()), uid: u@ },
            ));
            if mole_wf(old_m) {
                assert forall|i: int, j: int| 0 <= i < j < self@.len() implies self@[i].uid
                    != self@[j].uid by {
                    if j == self@.len() - 1 {
                        assert(!m_has_uid(old_m, u@));
                        assert(old_m[i].uid != u@);
                    }
                }
                assert(mole_wf(self@));
            }
        }
        Ok(u)
    }

    /// Adds `group_name` to the record at `index`; `Some(true)` when the
    /// tag was newly added, `Some(false)` when it was already there,
    /// `None` when the index is out of range.
    pub fn select(&mut self, group_name: &str, index: usize) -> (r: Option<bool>)
        ensures
            match r {
                None => index >= old(self)@.len() && final(self)@ == old(self)@,
                Some(added) => index < old(self)@.len() && added == !old(self)@[
                    index as int
                ].tags.contains(group_name@) && final(self)@ == old(self)@.update(
                    index as int,
                    tag_added(old(self)@[index as int], group_name@),
                ),
            },
            r is None <==> index >= old(self)@.len(),
            mole_wf(old(self)@) ==> mole_wf(final(self)@),
    {
        if index >= self.atoms.len() {
            return None;
        }
        let g = group_name.to_owned();
        let mut rec = self.atoms.remove(index);
        let ghost orig = rec@;
        let added = !contains_string(&rec.groups, &g);
        if added {
            let ghost old_tags = rec.groups.deep_view();
            rec.groups.push(g);
            proof {
                assert(rec.groups.deep_view() =~= old_tags.push(group_name@));
            }
        }
        assert(rec@ == tag_added(orig, group_name@));
        self.atoms.insert(index, rec);
        proof {
            assert(self@ =~= old(self)@.update(index as int, tag_added(orig, group_name@)));
            if mole_wf(old(self)@) {
                assert forall|i: int, j: int| 0 <= i < j < self@.len() implies self@[i].uid
                    != self@[j].uid by {
                    assert(self@[i].uid == old(self)@[i].uid);
                    assert(self@[j].uid == old(self)@[j].uid);
                }
                assert forall|i: int| 0 <= i < self@.len() implies rec_wf(#[trigger] self@[i]) by {
                    assert(rec_wf(old(self)@[i]));
                    if i == index {
                        assert(self@[i] == tag_added(orig, group_name@));
                    }
                }
            }
        }
        Some(added)
    }

    /// Removes `group_name` from the record at `index`; `Some(true)` when
    /// the tag was present and removed, `Some(false)` when it was absent,
    /// `None` when the index is out of range.
    pub fn unselect(&mut self, group_name: &str, index: usize) -> (r: Option<bool>)
        ensures
            match r {
                None => index >= old(self)@.len() && final(self)@ == old(self)@,
                Some(removed) => index < old(self)@.len() && removed == old(self)@[
                    index as int
                ].tags.contains(group_name@) && final(self)@ == old(self)@.update(
                    index as int,
                    tag_removed(old(self)@[index as int], group_name@),
                ),
            },
            r is None <==> index >= old(self)@.len(),
            mole_wf(old(self)@) ==> mole_wf(final(self)@),
    {
        if index >= self.atoms.len() {
            return None;
        }
        let g = group_name.to_owned();
        let mut rec = self.atoms.remove(index);
        let ghost orig = rec@;
        let removed = contains_string(&rec.groups, &g);
        rec.groups = remove_string(&rec.groups, &g);
        assert(rec@ == tag_removed(orig, group_name@));
        self.atoms.insert(index, rec);
        proof {
            assert(self@ =~= old(self)@.update(index as int, tag_removed(orig, group_name@)));
            if mole_wf(old(self)@) {
                assert forall|i: int, j: int| 0 <= i < j < self@.len() implies self@[i].uid
                    != self@[j].uid by {
                    assert(self@[i].uid == old(self)@[i].uid);
                    assert(self@[j].uid == old(self)@[j].uid);
                }
                assert forall|i: int| 0 <= i < self@.len() implies rec_wf(#[trigger] self@[i]) by {
                    assert(rec_wf(old(self)@[i]));
                    if i == index {
                        assert(self@[i] == tag_removed(orig, group_name@));
                        lemma_distinct_filter(orig.tags, |t: Seq<char>| t != group_name@);
                    }
                }
            }
        }
        Some(removed)
    }

    /// The records tagged with `group_name`, cloned, in molecule order.
    pub fn get_group(&self, group_name: &str) -> (r: Vec<AtomRecord>)
        ensures
            recs_view(r@) == group_of(self@, group_name@),
    {
        let g = group_name.to_owned();
        let mut r: Vec<AtomRecord> = Vec::new();
        let mut i: usize = 0;
        while i < self.atoms.len()
            invariant
                i <= self.atoms.len(),
                self@.len() == self.atoms@.len(),
                forall|j: int| 0 <= j < self@.len() ==> self@[j] == self.atoms@[j]@,
                g@ == group_name@,
                recs_view(r@) == group_of(self@.take(i as int), group_name@),
            decreases self.atoms.len() - i,
        {
            let ghost prefix = self@.take(i as int);
            proof {
                broadcast use Seq::lemma_filter_push;

                assert(self@.take(i + 1) =~= prefix.push(self@[i as int]));
            }
            if contains_string(&self.atoms[i].groups, &g) {
                let ghost old_r = recs_view(r@);
                r.push(self.atoms[i].clone());
                proof {
                    assert(recs_view(r@) =~= old_r.push(self@[i as int]));
                }
            }
            i = i + 1;
        }
        proof {
            assert(self@.take(self@.len() as int) =~= self@);
        }
        r
    }

    /// Looks a record up by its unique identifier; a clone of the first
    /// record carrying it, or `None` when no record does.
    pub fn get_atom(&self, uid: &str) -> (r: Option<AtomRecord>)
        ensures
            match r {
                Some(rec) => m_has_uid(self@, uid@) && rec@.uid == uid@ && exists|i: int|
                    0 <= i < self@.len() && #[trigger] self@[i] == rec@,
                None => !m_has_uid(self@, uid@),
            },
            r is Some <==> m_has_uid(self@, uid@),
    {
        let mut i: usize = 0;
        while i < self.atoms.len()
            invariant
                i <= self.atoms.len(),
                self@.len() == self.atoms@.len(),
                forall|j: int| 0 <= j < self@.len() ==> self@[j] == self.atoms@[j]@,
                forall|j: int| 0 <= j < i ==> self@[j].uid != uid@,
            decreases self.atoms.len() - i,
        {
            if self.atoms[i].uid.as_str().eq(uid) {
                let rec = self.atoms[i].clone();
                assert(self@[i as int] == rec@);
                return Some(rec);
            }
            i = i + 1;
        }
        None
    }

    /// Every group tag some record currently carries, without duplicates;
    /// a tag is listed exactly when an atom holds it.
    pub fn get_groups(&self) -> (r: Vec<String>)
        ensures
            distinct_seqs(r.deep_view()),
            forall|t: Seq<char>|
                #[trigger] r.deep_view().contains(t) <==> exists|i: int|
                    0 <= i < self@.len() && #[trigger] self@[i].tags.contains(t),
    {
        let mut all: Vec<String> = Vec::new();
        let mut i: usize = 0;
        while i < self.atoms.len()
            invariant
                i <= self.atoms.len(),
                self@.len() == self.atoms@.len(),
                forall|j: int| 0 <= j < self@.len() ==> self@[j] == self.atoms@[j]@,
                forall|t: Seq<char>|
                    #[trigger] all.deep_view().contains(t) <==> exists|j: int|
                        0 <= j < i && #[trigger] self@[j].tags.contains(t),
            decreases self.atoms.len() - i,
        {
            let rec_groups = &self.atoms[i].groups;
            let mut k: usize = 0;
            while k < rec_groups.len()
                invariant
                    i < self.atoms.len(),
                    k <= rec_groups.len(),
                    self@.len() == self.atoms@.len(),
                    forall|j: int| 0 <= j < self@.len() ==> self@[j] == self.atoms@[j]@,
                    rec_groups == &self.atoms[i as int].groups,
                    forall|t: Seq<char>|
                        #[trigger] all.deep_view().contains(t) <==> (exists|j: int|
                            0 <= j < i && #[trigger] self@[j].tags.contains(t)) || self@[
                            i as int
                        ].tags.take(k as int).contains(t),
                decreases rec_groups.len() - k,
            {
                let ghost old_all = all.deep_view();
                let ghost tags_i = self@[i as int].tags;
                all.push(rec_groups[k].clone());
                proof {
                    assert(all.deep_view() =~= old_all.push(tags_i[k as int]));
                    assert(tags_i.take(k + 1) =~= tags_i.take(k as int).push(tags_i[k as int]));
                    assert forall|t: Seq<char>| #[trigger] all.deep_view().contains(t) implies (
                    exists|j: int| 0 <= j < i && #[trigger] self@[j].tags.contains(t)) || tags_i.take(
                        k + 1,
                    ).contains(t) by {
                        if t == tags_i[k as int] {
                            assert(tags_i.take(k + 1).last() == t);
                        } else {
                            assert(old_all.contains(t));
                        }
                    }
                    assert forall|t: Seq<char>|
                        (exists|j: int| 0 <= j < i && #[trigger] self@[j].tags.contains(t))
                            || tags_i.take(k + 1).contains(t) implies #[trigger] all.deep_view().contains(
                        t,
                    ) by {
                        let n = all.deep_view().len();
                        if tags_i.take(k + 1).contains(t) {
                            let w = choose|w: int|
                                0 <= w < k + 1 && #[trigger] tags_i.take(k + 1)[w] == t;
                            if w < k {
                                assert(tags_i.take(k as int)[w] == t);
                                assert(old_all.contains(t));
                                let v = choose|v: int|
                                    0 <= v < old_all.len() && #[trigger] old_all[v] == t;
                                assert(all.deep_view()[v] == t);
                            } else {
                                assert(all.deep_view()[n - 1] == t);
                            }
                        } else {
                            assert(old_all.contains(t));
                            let v = choose|v: int|
                                0 <= v < old_all.len() && #[trigger] old_all[v] == t;
                            assert(all.deep_view()[v] == t);
                        }
                    }
                }
                k = k + 1;
            }
            proof {
                let ghost tags_i = self@[i as int].tags;
                assert(tags_i.take(tags_i.len() as int) =~= tags_i);
                assert forall|t: Seq<char>| #[trigger] all.deep_view().contains(t) implies exists|j: int|
                    0 <= j < i + 1 && #[trigger] self@[j].tags.contains(t) by {
                    if self@[i as int].tags.contains(t) {
                        assert(0 <= i < i + 1 && self@[i as int].tags.contains(t));
                    }
                }
            }
            i = i + 1;
        }
        let r = dedup_strings(&all);
        proof {
            lemma_dedup_props(all.deep_view());
            assert forall|t: Seq<char>| #[trigger] r.deep_view().contains(t) implies exists|i: int|
                0 <= i < self@.len() && #[trigger] self@[i].tags.contains(t) by {
                assert(all.deep_view().contains(t));
            }
            assert forall|t: Seq<char>|
                (exists|i: int| 0 <= i < self@.len() && #[trigger] self@[i].tags.contains(t))
                    implies #[trigger] r.deep_view().contains(t) by {
                assert(all.deep_view().contains(t));
            }
        }
        r
    }

    /// Deletes every record tagged with `group_name`; the others keep
    /// their relative order and are untouched.
    pub fn remove_atoms(&mut self, group_name: &str)
        ensures
            final(self)@ == old(self)@.filter(
                |r: RecordModel| !r.tags.contains(group_name@),
            ),
            mole_wf(old(self)@) ==> mole_wf(final(self)@),
    {
        let g = group_name.to_owned();
        let mut kept: Vec<AtomRecord> = Vec::new();
        let mut i: usize = 0;
        while i < self.atoms.len()
            invariant
                i <= self.atoms.len(),
                self@.len() == self.atoms@.len(),
                forall|j: int| 0 <= j < self@.len() ==> self@[j] == self.atoms@[j]@,
                g@ == group_name@,
                recs_view(kept@) == self@.take(i as int).filter(
                    |r: RecordModel| !r.tags.contains(group_name@),
                ),
            decreases self.atoms.len() - i,
        {
            let ghost prefix = self@.take(i as int);
            proof {
                broadcast use Seq::lemma_filter_push;

                assert(self@.take(i + 1) =~= prefix.push(self@[i as int]));
            }
            if !contains_string(&self.atoms[i].groups, &g) {
                let ghost old_k = recs_view(kept@);
                kept.push(self.atoms[i].clone());
                proof {
                    assert(recs_view(kept@) =~= old_k.push(self@[i as int]));
                }
            }
            i = i + 1;
        }
        proof {
            assert(self@.take(self@.len() as int) =~= self@);
        }
        let ghost old_m = self@;
        self.atoms = kept;
        proof {
            assert(self@ =~= old_m.filter(|r: RecordModel| !r.tags.contains(group_name@)));
            if mole_wf(old_m) {
                lemma_filter_wf(old_m, |r: RecordModel| !r.tags.contains(group_name@));
            }
        }
    }

    /// Applies a caller-supplied position transform to every record
    /// tagged with `group_name`, leaving every other record untouched,
    /// and returns the group.
    pub fn transform_atoms<F: Fn(Position) -> Position>(
        &mut self,
        group_name: &str,
        f: F,
    ) -> (r: Vec<AtomRecord>)
        requires
            forall|p: Position| f.requires((p,)),
        ensures
            final(self)@.len() == old(self)@.len(),
            forall|j: int|
                0 <= j < old(self)@.len() ==> {
                    let o = #[trigger] old(self)@[j];
                    let nw = final(self)@[j];
                    nw.atom == o.atom && nw.tags == o.tags && nw.uid == o.uid && (
                    !o.tags.contains(group_name@) ==> nw.position == o.position) && (
                    o.tags.contains(group_name@) ==> f.ensures((o.position,), nw.position))
                },
            recs_view(r@) == group_of(final(self)@, group_name@),
            mole_wf(old(self)@) ==> mole_wf(final(self)@),
    {
        let g = group_name.to_owned();
        let mut i: usize = 0;
        while i < self.atoms.len()
            invariant
                i <= self.atoms.len(),
                self@.len() == self.atoms@.len(),
                self@.len() == old(self)@.len(),
                forall|j: int| 0 <= j < self@.len() ==> self@[j] == self.atoms@[j]@,
                g@ == group_name@,
                forall|p: Position| f.requires((p,)),
                forall|j: int| i <= j < self@.len() ==> self@[j] == old(self)@[j],
                forall|j: int|
                    0 <= j < i ==> {
                        let o = #[trigger] old(self)@[j];
                        let nw = self@[j];
                        nw.atom == o.atom && nw.tags == o.tags && nw.uid == o.uid && (
                        !o.tags.contains(group_name@) ==> nw.position == o.position) && (
                        o.tags.contains(group_name@) ==> f.ensures((o.position,), nw.position))
                    },
            decreases self.atoms.len() - i,
        {
            if contains_string(&self.atoms[i].groups, &g) {
                let p = self.atoms[i].position;
                let np = f(p);
                let mut rec = self.atoms.remove(i);
                rec.position = np;
                self.atoms.insert(i, rec);
            }
            i = i + 1;
        }
        proof {
            if mole_wf(old(self)@) {
                assert forall|a: int, b: int| 0 <= a < b < self@.len() implies self@[a].uid
                    != self@[b].uid by {
                    assert(self@[a].uid == old(self)@[a].uid);
                    assert(self@[b].uid == old(self)@[b].uid);
                }
                assert forall|a: int| 0 <= a < self@.len() implies rec_wf(#[trigger] self@[a]) by {
                    assert(rec_wf(old(self)@[a]));
                    assert(self@[a].tags == old(self)@[a].tags);
                }
            }
        }
        self.get_group(group_name)
    }

    /// Appends every record of `structure`, each gaining `group_name`:
    /// keeping its original tags too when `keep_origin_groups` is set,
    /// carrying exactly the one tag otherwise. Identifiers carry over
    /// unchanged, so the merge fails, leaving this molecule untouched,
    /// exactly when the two molecules share one. Returns the group.
    pub fn merge_as_group(
        &mut self,
        group_name: &str,
        structure: DescartesMole,
        keep_origin_groups: bool,
    ) -> (r: Result<Vec<AtomRecord>, MoleculeError>)
        ensures
            match r {
                Ok(v) => {
                    &&& final(self)@ == old(self)@ + structure@.map_values(
                        |rec: RecordModel| merged_rec(rec, group_name@, keep_origin_groups),
                    )
                    &&& recs_view(v@) == group_of(final(self)@, group_name@)
                },
                Err(e) => final(self)@ == old(self)@ && match e {
                    MoleculeError::DuplicatedUniqId(d) => m_has_uid(old(self)@, d@) && m_has_uid(
                        structure@,
                        d@,
                    ),
                    _ => false,
                },
            },
            r is Err <==> exists|i: int|
                0 <= i < structure@.len() && m_has_uid(old(self)@, #[trigger] structure@[i].uid),
            mole_wf(old(self)@) && mole_wf(structure@) && r is Ok ==> mole_wf(final(self)@),
    {
        let mut i: usize = 0;
        while i < structure.atoms.len()
            invariant
                i <= structure.atoms.len(),
                structure@.len() == structure.atoms@.len(),
                forall|j: int| 0 <= j < structure@.len() ==> structure@[j] == structure.atoms@[j]@,
                self@ == old(self)@,
                forall|j: int| 0 <= j < i ==> !m_has_uid(old(self)@, #[trigger] structure@[j].uid),
            decreases structure.atoms.len() - i,
        {
            if self.contains_uid(structure.atoms[i].uid.as_str()) {
                let d = structure.atoms[i].uid.clone();
                assert(structure@[i as int].uid == d@);
                return Err(MoleculeError::DuplicatedUniqId(d));
            }
            i = i + 1;
        }
        let g = group_name.to_owned();
        let ghost merged = structure@.map_values(
            |rec: RecordModel| merged_rec(rec, group_name@, keep_origin_groups),
        );
        let mut i: usize = 0;
        while i < structure.atoms.len()
            invariant
                i <= structure.atoms.len(),
                structure@.len() == structure.atoms@.len(),
                forall|j: int| 0 <= j < structure@.len() ==> structure@[j] == structure.atoms@[j]@,
                g@ == group_name@,
                merged == structure@.map_values(
                    |rec: RecordModel| merged_rec(rec, group_name@, keep_origin_groups),
                ),
                self@ == old(self)@ + merged.take(i as int),
            decreases structure.atoms.len() - i,
        {
            let mut rec = structure.atoms[i].clone();
            let ghost orig = rec@;
            if keep_origin_groups {
                if !contains_string(&rec.groups, &g) {
                    let ghost old_tags = rec.groups.deep_view();
                    rec.groups.push(g.clone());
                    proof {
                        assert(rec.groups.deep_view() =~= old_tags.push(group_name@));
                    }
                }
            } else {
                let mut ng: Vec<String> = Vec::new();
                ng.push(g.clone());
                proof {
                    assert(ng.deep_view() =~= seq![group_name@]);
                }
                rec.groups = ng;
            }
            assert(rec@ == merged_rec(orig, group_name@, keep_origin_groups));
            let ghost before = self@;
            self.atoms.push(rec);
            proof {
                assert(self@ =~= before.push(merged[i as int]));
                assert(old(self)@ + merged.take(i + 1) =~= before.push(merged[i as int]));
            }
            i = i + 1;
        }
        proof {
            assert(merged.take(merged.len() as int) =~= merged);
            if mole_wf(old(self)@) && mole_wf(structure@) {
                assert forall|a: int, b: int| 0 <= a < b < self@.len() implies self@[a].uid
                    != self@[b].uid by {
                    let n0 = old(self)@.len();
                    if b >= n0 {
                        assert(self@[b] == merged[b - n0]);
                        assert(self@[b].uid == structure@[b - n0].uid);
                        if a >= n0 {
                            assert(self@[a].uid == structure@[a - n0].uid);
                        } else {
                            assert(self@[a].uid == old(self)@[a].uid);
                            assert(!m_has_uid(old(self)@, structure@[b - n0].uid));
                        }
                    }
                }
                assert forall|a: int| 0 <= a < self@.len() implies rec_wf(#[trigger] self@[a]) by {
                    let n0 = old(self)@.len();
                    if a < n0 {
                        assert(rec_wf(old(self)@[a]));
                    } else {
                        assert(self@[a] == merged[a - n0]);
                        assert(rec_wf(structure@[a - n0]));
                    }
                }
            }
        }
        let out = self.get_group(group_name);
        Ok(out)
    }
}

/// `r` with `g` added to its tag set, if absent.
pub open spec fn tag_added(r: RecordModel, g: Seq<char>) -> RecordModel {
    if r.tags.contains(g) {
        r
    } else {
        RecordModel { tags: r.tags.push(g), ..r }
    }
}

/// `r` with every occurrence of `g` removed from its tag set.
pub open spec fn tag_removed(r: RecordModel, g: Seq<char>) -> RecordModel {
    RecordModel { tags: r.tags.filter(|t: Seq<char>| t != g), ..r }
}

/// What a record of a merged molecule becomes: it gains `g`, and keeps
/// its original tags only when `keep` is set.
pub open spec fn merged_rec(r: RecordModel, g: Seq<char>, keep: bool) -> RecordModel {
    if keep {
        tag_added(r, g)
    } else {
        RecordModel { tags: seq![g], ..r }
    }
}

/// Filtering a well-formed molecule leaves a well-formed molecule.
pub proof fn lemma_filter_wf(m: Seq<RecordModel>, pred: spec_fn(RecordModel) -> bool)
    requires
        mole_wf(m),
    ensures
        mole_wf(m.filter(pred)),
    decreases m.len(),
{
    broadcast use Seq::lemma_filter_push;

    if m.len() > 0 {
        let prefix = m.drop_last();
        assert(mole_wf(prefix));
        lemma_filter_wf(prefix, pred);
        assert(m =~= prefix.push(m.last()));
        let f = prefix.filter(pred);
        if pred(m.last()) {
            assert(m.filter(pred) == f.push(m.last()));
            assert forall|a: int, b: int|
                0 <= a < b < f.push(m.last()).len() implies f.push(m.last())[a].uid != f.push(
                m.last(),
            )[b].uid by {
                if b == f.len() {
                    assert(f.contains(f[a]));
                    prefix.lemma_filter_contains_rev(pred, f[a]);
                    let w = choose|w: int| 0 <= w < prefix.len() && #[trigger] prefix[w] == f[a];
                    assert(m[w] == f[a]);
                    assert(m[m.len() - 1] == m.last());
                    assert(m[w].uid != m[m.len() - 1].uid);
                }
            }
            assert forall|a: int| 0 <= a < f.push(m.last()).len() implies rec_wf(
                #[trigger] f.push(m.last())[a],
            ) by {
                if a < f.len() {
                    assert(f.contains(f[a]));
                    prefix.lemma_filter_contains_rev(pred, f[a]);
                    let w = choose|w: int| 0 <= w < prefix.len() && #[trigger] prefix[w] == f[a];
                    assert(rec_wf(m[w]));
                } else {
                    assert(rec_wf(m[m.len() - 1]));
                }
            }
        } else {
            assert(m.filter(pred) == f);
        }
    }
}

/// Filtering keeps a tag sequence free of duplicates.
pub proof fn lemma_distinct_filter(s: Seq<Seq<char>>, pred: spec_fn(Seq<char>) -> bool)
    requires
        distinct_seqs(s),
    ensures
        distinct_seqs(s.filter(pred)),
    decreases s.len(),
{
    broadcast use Seq::lemma_filter_push;

    if s.len() > 0 {
        let prefix = s.drop_last();
        assert(distinct_seqs(prefix));
        lemma_distinct_filter(prefix, pred);
        assert(s =~= prefix.push(s.last()));
        let f = prefix.filter(pred);
        if pred(s.last()) {
            assert(s.filter(pred) == f.push(s.last()));
            assert forall|a: int, b: int|
                0 <= a < b < f.push(s.last()).len() implies f.push(s.last())[a] != f.push(
                s.last(),
            )[b] by {
                if b == f.len() {
                    assert(f.contains(f[a]));
                    prefix.lemma_filter_contains_rev(pred, f[a]);
                    let w = choose|w: int| 0 <= w < prefix.len() && #[trigger] prefix[w] == f[a];
                    assert(s[w] == f[a]);
                    assert(s[s.len() - 1] == s.last());
                    assert(s[w] != s[s.len() - 1]);
                }
            }
        } else {
            assert(s.filter(pred) == f);
        }
    }
}

/// After `remove_atoms(g)` the group `g` is empty: no record of the
/// remaining molecule carries the tag, so `get_group(g)` returns nothing,
/// while the records without the tag are exactly the survivors, kept in
/// their original order and untouched.
pub proof fn lemma_removed_group_empty(m: Seq<RecordModel>, g: Seq<char>)
    ensures
        group_of(m.filter(|r: RecordModel| !r.tags.contains(g)), g) == Seq::<RecordModel>::empty(),
{
    let kept = m.filter(|r: RecordModel| !r.tags.contains(g));
    let res = group_of(kept, g);
    if res.len() > 0 {
        assert(res.contains(res[0]));
        kept.lemma_filter_contains_rev(|r: RecordModel| r.tags.contains(g), res[0]);
        let w = choose|w: int| 0 <= w < kept.len() && #[trigger] kept[w] == res[0];
        kept.lemma_filter_pred(|r: RecordModel| r.tags.contains(g), 0);
        m.lemma_filter_pred(|r: RecordModel| !r.tags.contains(g), w);
    }
    assert(res =~= Seq::<RecordModel>::empty());
}

/// Selecting the same group twice is idempotent: after the first call the
/// record carries the tag, so the second call changes nothing and reports
/// the tag as already present; the tag set's size is unchanged by the
/// second call.
pub proof fn lemma_select_idempotent(m: Seq<RecordModel>, g: Seq<char>, i: int)
    requires
        0 <= i < m.len(),
    ensures
        m.update(i, tag_added(m[i], g))[i].tags.contains(g),
        tag_added(m.update(i, tag_added(m[i], g))[i], g) == m.update(i, tag_added(m[i], g))[i],
        m.update(i, tag_added(m[i], g)).update(i, tag_added(m.update(i, tag_added(m[i], g))[i], g))
            == m.update(i, tag_added(m[i], g)),
{
    let m1 = m.update(i, tag_added(m[i], g));
    if !m[i].tags.contains(g) {
        assert(m1[i].tags.last() == g);
    }
    assert(m1.update(i, m1[i]) =~= m1);
}

/// Removes every string equal to `x`, keeping the others in order.
fn remove_string(v: &Vec<String>, x: &String) -> (r: Vec<String>)
    ensures
        r.deep_view() == v.deep_view().filter(|t: Seq<char>| t != x@),
{
    let mut r: Vec<String> = Vec::new();
    let mut i: usize = 0;
    while i < v.len()
        invariant
            i <= v.len(),
            r.deep_view() == v.deep_view().take(i as int).filter(|t: Seq<char>| t != x@),
        decreases v.len() - i,
    {
        let ghost prefix = v.deep_view().take(i as int);
        proof {
            broadcast use Seq::lemma_filter_push;

            assert(v.deep_view().take(i + 1) =~= prefix.push(v.deep_view()[i as int]));
        }
        if !v[i].eq(x) {
            let ghost old_r = r.deep_view();
            r.push(v[i].clone());
            proof {
                assert(r.deep_view() =~= old_r.push(v.deep_view()[i as int]));
            }
        }
        i = i + 1;
    }
    proof {
        assert(v.deep_view().take(v.deep_view().len() as int) =~= v.deep_view());
    }
    r
}

} // verus!
