use vstd::prelude::*;

verus! {

/// The 118 chemical elements, in order of atomic number.
#[derive(Clone, Copy, Debug, PartialEq, Eq, Structural)]
pub enum Element {
    H,
    He,
    Li,
    Be,
    B,
    C,
    N,
    O,
    F,
    Ne,
    Na,
    Mg,
    Al,
    Si,
    P,
    S,
    Cl,
    Ar,
    K,
    Ca,
    Sc,
    Ti,
    V,
    Cr,
    Mn,
    Fe,
    Co,
    Ni,
    Cu,
    Zn,
    Ga,
    Ge,
    As,
    Se,
    Br,
    Kr,
    Rb,
    Sr,
    Y,
    Zr,
    Nb,
    Mo,
    Tc,
    Ru,
    Rh,
    Pd,
    Ag,
    Cd,
    In,
    Sn,
    Sb,
    Te,
    I,
    Xe,
    Cs,
    Ba,
    La,
    Ce,
    Pr,
    Nd,
    Pm,
    Sm,
    Eu,
    Gd,
    Tb,
    Dy,
    Ho,
    Er,
    Tm,
    Yb,
    Lu,
    Hf,
    Ta,
    W,
    Re,
    Os,
    Ir,
    Pt,
    Au,
    Hg,
    Tl,
    Pb,
    Bi,
    Po,
    At,
    Rn,
    Fr,
    Ra,
    Ac,
    Th,
    Pa,
    U,
    Np,
    Pu,
    Am,
    Cm,
    Bk,
    Cf,
    Es,
    Fm,
    Md,
    No,
    Lr,
    Rf,
    Db,
    Sg,
    Bh,
    Hs,
    Mt,
    Ds,
    Rg,
    Cn,
    Nh,
    Fl,
    Mc,
    Lv,
    Ts,
    Og,
}

/// The element whose symbol is the one- or two-letter sequence given as
/// a first character and an optional second character, if any.
pub open spec fn element_of_symbol(c1: char, c2: Option<char>) -> Option<Element> {
    match (c1, c2) {
        ('H', None) => Some(Element::H),
        ('H', Some('e')) => Some(Element::He),
        ('L', Some('i')) => Some(Element::Li),
        ('B', Some('e')) => Some(Element::Be),
        ('B', None) => Some(Element::B),
        ('C', None) => Some(Element::C),
        ('N', None) => Some(Element::N),
        ('O', None) => Some(Element::O),
        ('F', None) => Some(Element::F),
        ('N', Some('e')) => Some(Element::Ne),
        ('N', Some('a')) => Some(Element::Na),
        ('M', Some('g')) => Some(Element::Mg),
        ('A', Some('l')) => Some(Element::Al),
        ('S', Some('i')) => Some(Element::Si),
        ('P', None) => Some(Element::P),
        ('S', None) => Some(Element::S),
        ('C', Some('l')) => Some(Element::Cl),
        ('A', Some('r')) => Some(Element::Ar),
        ('K', None) => Some(Element::K),
        ('C', Some('a')) => Some(Element::Ca),
        ('S', Some('c')) => Some(Element::Sc),
        ('T', Some('i')) => Some(Element::Ti),
        ('V', None) => Some(Element::V),
        ('C', Some('r')) => Some(Element::Cr),
        ('M', Some('n')) => Some(Element::Mn),
        ('F', Some('e')) => Some(Element::Fe),
        ('C', Some('o')) => Some(Element::Co),
        ('N', Some('i')) => Some(Element::Ni),
        ('C', Some('u')) => Some(Element::Cu),
        ('Z', Some('n')) => Some(Element::Zn),
        ('G', Some('a')) => Some(Element::Ga),
        ('G', Some('e')) => Some(Element::Ge),
        ('A', Some('s')) => Some(Element::As),
        ('S', Some('e')) => Some(Element::Se),
        ('B', Some('r')) => Some(Element::Br),
        ('K', Some('r')) => Some(Element::Kr),
        ('R', Some('b')) => Some(Element::Rb),
        ('S', Some('r')) => Some(Element::Sr),
        ('Y', None) => Some(Element::Y),
        ('Z', Some('r')) => Some(Element::Zr),
        ('N', Some('b')) => Some(Element::Nb),
        ('M', Some('o')) => Some(Element::Mo),
        ('T', Some('c')) => Some(Element::Tc),
        ('R', Some('u')) => Some(Element::Ru),
        ('R', Some('h')) => Some(Element::Rh),
        ('P', Some('d')) => Some(Element::Pd),
        ('A', Some('g')) => Some(Element::Ag),
        ('C', Some('d')) => Some(Element::Cd),
        ('I', Some('n')) => Some(Element::In),
        ('S', Some('n')) => Some(Element::Sn),
        ('S', Some('b')) => Some(Element::Sb),
        ('T', Some('e')) => Some(Element::Te),
        ('I', None) => Some(Element::I),
        ('X', Some('e')) => Some(Element::Xe),
        ('C', Some('s')) => Some(Element::Cs),
        ('B', Some('a')) => Some(Element::Ba),
        ('L', Some('a')) => Some(Element::La),
        ('C', Some('e')) => Some(Element::Ce),
        ('P', Some('r')) => Some(Element::Pr),
        ('N', Some('d')) => Some(Element::Nd),
        ('P', Some('m')) => Some(Element::Pm),
        ('S', Some('m')) => Some(Element::Sm),
        ('E', Some('u')) => Some(Element::Eu),
        ('G', Some('d')) => Some(Element::Gd),
        ('T', Some('b')) => Some(Element::Tb),
        ('D', Some('y')) => Some(Element::Dy),
        ('H', Some('o')) => Some(Element::Ho),
        ('E', Some('r')) => Some(Element::Er),
        ('T', Some('m')) => Some(Element::Tm),
        ('Y', Some('b')) => Some(Element::Yb),
        ('L', Some('u')) => Some(Element::Lu),
        ('H', Some('f')) => Some(Element::Hf),
        ('T', Some('a')) => Some(Element::Ta),
        ('W', None) => Some(Element::W),
        ('R', Some('e')) => Some(Element::Re),
        ('O', Some('s')) => Some(Element::Os),
        ('I', Some('r')) => Some(Element::Ir),
        ('P', Some('t')) => Some(Element::Pt),
        ('A', Some('u')) => Some(Element::Au),
        ('H', Some('g')) => Some(Element::Hg),
        ('T', Some('l')) => Some(Element::Tl),
        ('P', Some('b')) => Some(Element::Pb),
        ('B', Some('i')) => Some(Element::Bi),
        ('P', Some('o')) => Some(Element::Po),
        ('A', Some('t')) => Some(Element::At),
        ('R', Some('n')) => Some(Element::Rn),
        ('F', Some('r')) => Some(Element::Fr),
        ('R', Some('a')) => Some(Element::Ra),
        ('A', Some('c')) => Some(Element::Ac),
        ('T', Some('h')) => Some(Element::Th),
        ('P', Some('a')) => Some(Element::Pa),
        ('U', None) => Some(Element::U),
        ('N', Some('p')) => Some(Element::Np),
        ('P', Some('u')) => Some(Element::Pu),
        ('A', Some('m')) => Some(Element::Am),
        ('C', Some('m')) => Some(Element::Cm),
        ('B', Some('k')) => Some(Element::Bk),
        ('C', Some('f')) => Some(Element::Cf),
        ('E', Some('s')) => Some(Element::Es),
        ('F', Some('m')) => Some(Element::Fm),
        ('M', Some('d')) => Some(Element::Md),
        ('N', Some('o')) => Some(Element::No),
        ('L', Some('r')) => Some(Element::Lr),
        ('R', Some('f')) => Some(Element::Rf),
        ('D', Some('b')) => Some(Element::Db),
        ('S', Some('g')) => Some(Element::Sg),
        ('B', Some('h')) => Some(Element::Bh),
        ('H', Some('s')) => Some(Element::Hs),
        ('M', Some('t')) => Some(Element::Mt),
        ('D', Some('s')) => Some(Element::Ds),
        ('R', Some('g')) => Some(Element::Rg),
        ('C', Some('n')) => Some(Element::Cn),
        ('N', Some('h')) => Some(Element::Nh),
        ('F', Some('l')) => Some(Element::Fl),
        ('M', Some('c')) => Some(Element::Mc),
        ('L', Some('v')) => Some(Element::Lv),
        ('T', Some('s')) => Some(Element::Ts),
        ('O', Some('g')) => Some(Element::Og),
        _ => None,
    }
}

impl Element {
    /// Looks a symbol up by its characters: the first letter and, for
    /// two-letter symbols, the second.
    pub fn from_symbol_chars(c1: char, c2: Option<char>) -> (r: Option<Element>)
        ensures
            r == element_of_symbol(c1, c2),
    {
        match (c1, c2) {
            ('H', None) => Some(Element::H),
            ('H', Some('e')) => Some(Element::He),
            ('L', Some('i')) => Some(Element::Li),
            ('B', Some('e')) => Some(Element::Be),
            ('B', None) => Some(Element::B),
            ('C', None) => Some(Element::C),
            ('N', None) => Some(Element::N),
            ('O', None) => Some(Element::O),
            ('F', None) => Some(Element::F),
            ('N', Some('e')) => Some(Element::Ne),
            ('N', Some('a')) => Some(Element::Na),
            ('M', Some('g')) => Some(Element::Mg),
            ('A', Some('l')) => Some(Element::Al),
            ('S', Some('i')) => Some(Element::Si),
            ('P', None) => Some(Element::P),
            ('S', None) => Some(Element::S),
            ('C', Some('l')) => Some(Element::Cl),
            ('A', Some('r')) => Some(Element::Ar),
            ('K', None) => Some(Element::K),
            ('C', Some('a')) => Some(Element::Ca),
            ('S', Some('c')) => Some(Element::Sc),
            ('T', Some('i')) => Some(Element::Ti),
            ('V', None) => Some(Element::V),
            ('C', Some('r')) => Some(Element::Cr),
            ('M', Some('n')) => Some(Element::Mn),
            ('F', Some('e')) => Some(Element::Fe),
            ('C', Some('o')) => Some(Element::Co),
            ('N', Some('i')) => Some(Element::Ni),
            ('C', Some('u')) => Some(Element::Cu),
            ('Z', Some('n')) => Some(Element::Zn),
            ('G', Some('a')) => Some(Element::Ga),
            ('G', Some('e')) => Some(Element::Ge),
            ('A', Some('s')) => Some(Element::As),
            ('S', Some('e')) => Some(Element::Se),
            ('B', Some('r')) => Some(Element::Br),
            ('K', Some('r')) => Some(Element::Kr),
            ('R', Some('b')) => Some(Element::Rb),
            ('S', Some('r')) => Some(Element::Sr),
            ('Y', None) => Some(Element::Y),
            ('Z', Some('r')) => Some(Element::Zr),
            ('N', Some('b')) => Some(Element::Nb),
            ('M', Some('o')) => Some(Element::Mo),
            ('T', Some('c')) => Some(Element::Tc),
            ('R', Some('u')) => Some(Element::Ru),
            ('R', Some('h')) => Some(Element::Rh),
            ('P', Some('d')) => Some(Element::Pd),
            ('A', Some('g')) => Some(Element::Ag),
            ('C', Some('d')) => Some(Element::Cd),
            ('I', Some('n')) => Some(Element::In),
            ('S', Some('n')) => Some(Element::Sn),
            ('S', Some('b')) => Some(Element::Sb),
            ('T', Some('e')) => Some(Element::Te),
            ('I', None) => Some(Element::I),
            ('X', Some('e')) => Some(Element::Xe),
            ('C', Some('s')) => Some(Element::Cs),
            ('B', Some('a')) => Some(Element::Ba),
            ('L', Some('a')) => Some(Element::La),
            ('C', Some('e')) => Some(Element::Ce),
            ('P', Some('r')) => Some(Element::Pr),
            ('N', Some('d')) => Some(Element::Nd),
            ('P', Some('m')) => Some(Element::Pm),
            ('S', Some('m')) => Some(Element::Sm),
            ('E', Some('u')) => Some(Element::Eu),
            ('G', Some('d')) => Some(Element::Gd),
            ('T', Some('b')) => Some(Element::Tb),
            ('D', Some('y')) => Some(Element::Dy),
            ('H', Some('o')) => Some(Element::Ho),
            ('E', Some('r')) => Some(Element::Er),
            ('T', Some('m')) => Some(Element::Tm),
            ('Y', Some('b')) => Some(Element::Yb),
            ('L', Some('u')) => Some(Element::Lu),
            ('H', Some('f')) => Some(Element::Hf),
            ('T', Some('a')) => Some(Element::Ta),
            ('W', None) => Some(Element::W),
            ('R', Some('e')) => Some(Element::Re),
            ('O', Some('s')) => Some(Element::Os),
            ('I', Some('r')) => Some(Element::Ir),
            ('P', Some('t')) => Some(Element::Pt),
            ('A', Some('u')) => Some(Element::Au),
            ('H', Some('g')) => Some(Element::Hg),
            ('T', Some('l')) => Some(Element::Tl),
            ('P', Some('b')) => Some(Element::Pb),
            ('B', Some('i')) => Some(Element::Bi),
            ('P', Some('o')) => Some(Element::Po),
            ('A', Some('t')) => Some(Element::At),
            ('R', Some('n')) => Some(Element::Rn),
            ('F', Some('r')) => Some(Element::Fr),
            ('R', Some('a')) => Some(Element::Ra),
            ('A', Some('c')) => Some(Element::Ac),
            ('T', Some('h')) => Some(Element::Th),
            ('P', Some('a')) => Some(Element::Pa),
            ('U', None) => Some(Element::U),
            ('N', Some('p')) => Some(Element::Np),
            ('P', Some('u')) => Some(Element::Pu),
            ('A', Some('m')) => Some(Element::Am),
            ('C', Some('m')) => Some(Element::Cm),
            ('B', Some('k')) => Some(Element::Bk),
            ('C', Some('f')) => Some(Element::Cf),
            ('E', Some('s')) => Some(Element::Es),
            ('F', Some('m')) => Some(Element::Fm),
            ('M', Some('d')) => Some(Element::Md),
            ('N', Some('o')) => Some(Element::No),
            ('L', Some('r')) => Some(Element::Lr),
            ('R', Some('f')) => Some(Element::Rf),
            ('D', Some('b')) => Some(Element::Db),
            ('S', Some('g')) => Some(Element::Sg),
            ('B', Some('h')) => Some(Element::Bh),
            ('H', Some('s')) => Some(Element::Hs),
            ('M', Some('t')) => Some(Element::Mt),
            ('D', Some('s')) => Some(Element::Ds),
            ('R', Some('g')) => Some(Element::Rg),
            ('C', Some('n')) => Some(Element::Cn),
            ('N', Some('h')) => Some(Element::Nh),
            ('F', Some('l')) => Some(Element::Fl),
            ('M', Some('c')) => Some(Element::Mc),
            ('L', Some('v')) => Some(Element::Lv),
            ('T', Some('s')) => Some(Element::Ts),
            ('O', Some('g')) => Some(Element::Og),
            _ => None,
        }
    }
}

} // verus!
