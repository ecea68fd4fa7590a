use rsmol::elements::Element;
use rsmol::molecule::{Atom, DescartesMole, MoleculeError, Position};
use rsmol::parse::{parse_atom_token, parse_structure};

fn conv(s: &str) -> Option<u64> {
    s.parse::<f64>().ok().map(|v| v.to_bits())
}

fn pos(x: f64, y: f64, z: f64) -> Position {
    Position { x: x.to_bits(), y: y.to_bits(), z: z.to_bits() }
}

#[test]
fn it_works() {
    let result = rsmol::add(2, 2);
    assert_eq!(result, 4);
}

#[test]
fn overflow_slice() {
    let arr: Vec<usize> = vec![];
    println!("{:?}", arr.get(4..));
}

#[test]
fn atom_token_round_trip() {
    let a = parse_atom_token("13C+1").unwrap();
    assert_eq!(a.get_element(), Element::C);
    assert_eq!(a.isotope, Some(13));
    assert_eq!(a.get_formal_charge(), 1);

    let a = parse_atom_token("O-2").unwrap();
    assert_eq!(a.get_element(), Element::O);
    assert_eq!(a.isotope, None);
    assert_eq!(a.get_formal_charge(), -2);

    let a = parse_atom_token("H").unwrap();
    assert_eq!(a.get_element(), Element::H);
    assert_eq!(a.isotope, None);
    assert_eq!(a.get_formal_charge(), 0);

    let a = parse_atom_token("235U").unwrap();
    assert_eq!(a.get_element(), Element::U);
    assert_eq!(a.isotope, Some(235));

    let a = parse_atom_token("Cl-1").unwrap();
    assert_eq!(a.get_element(), Element::Cl);
    assert_eq!(a.get_formal_charge(), -1);
}

#[test]
fn atom_token_charge_bounds() {
    let a = parse_atom_token("H-128").unwrap();
    assert_eq!(a.get_formal_charge(), -128);
    assert!(matches!(parse_atom_token("H+128"), Err(MoleculeError::CantParseToken(t)) if t == "H+128"));
    assert!(matches!(parse_atom_token("300H"), Err(MoleculeError::CantParseToken(t)) if t == "300H"));
}

#[test]
fn atom_token_rejects_bad_shapes() {
    assert!(matches!(parse_atom_token(""), Err(MoleculeError::CantParseToken(_))));
    assert!(matches!(parse_atom_token("h"), Err(MoleculeError::CantParseToken(_))));
    assert!(matches!(parse_atom_token("12"), Err(MoleculeError::CantParseToken(_))));
    assert!(matches!(parse_atom_token("H+"), Err(MoleculeError::CantParseToken(_))));
    assert!(matches!(parse_atom_token("Hxx"), Err(MoleculeError::CantParseToken(_))));
    assert!(matches!(parse_atom_token("Xx"), Err(MoleculeError::UnknownElement(t)) if t == "Xx"));
}

#[test]
fn structure_counts_lines_in_order() {
    let m = parse_structure("H 0 0 0 t\nO 1 1 1 t\nC 2 2 2 t", conv).unwrap();
    let group = m.get_group("t");
    assert_eq!(group.len(), 3);
    assert_eq!(group[0].atom.element, Element::H);
    assert_eq!(group[1].atom.element, Element::O);
    assert_eq!(group[2].atom.element, Element::C);
    assert_eq!(group[0].position, pos(0.0, 0.0, 0.0));
    assert_eq!(group[1].position, pos(1.0, 1.0, 1.0));
    assert_eq!(group[2].position, pos(2.0, 2.0, 2.0));
    assert_eq!(m.get_uids().len(), 3);
}

#[test]
fn structure_skips_blank_lines() {
    let m = parse_structure("\n\nH 0 0 0\n\nO 1 1 1\n", conv).unwrap();
    assert_eq!(m.get_uids().len(), 2);
}

#[test]
fn identical_lines_get_distinct_uids() {
    let m = parse_structure("H 0 0 0\nH 0 0 0", conv).unwrap();
    let uids = m.get_uids();
    assert_eq!(uids.len(), 2);
    assert_ne!(uids[0], uids[1]);
}

#[test]
fn unknown_element_fails() {
    let r = parse_structure("Xx 0 0 0", conv);
    assert!(matches!(r, Err(MoleculeError::UnknownElement(t)) if t == "Xx"));
}

#[test]
fn bad_coordinate_fails() {
    let r = parse_structure("H a 0 0", conv);
    assert!(matches!(r, Err(MoleculeError::InvalidPosition(i)) if i == "1"));
    let r = parse_structure("H 0 b 0", conv);
    assert!(matches!(r, Err(MoleculeError::InvalidPosition(i)) if i == "2"));
    let r = parse_structure("H 0 0 c", conv);
    assert!(matches!(r, Err(MoleculeError::InvalidPosition(i)) if i == "3"));
}

#[test]
fn missing_coordinate_fails_with_line() {
    let r = parse_structure("H 0 0", conv);
    assert!(matches!(r, Err(MoleculeError::InvalidPosition(l)) if l == "H 0 0"));
}

#[test]
fn blank_token_line_fails() {
    let r = parse_structure("H 0 0 0\n   ", conv);
    assert!(matches!(r, Err(MoleculeError::CantParseLine(l)) if l == "   "));
}

#[test]
fn explicit_uid_and_tags() {
    let m = parse_structure("H 0 0 0 @a1 g1 g2", conv).unwrap();
    let rec = m.get_atom("@a1").unwrap();
    assert_eq!(rec.groups, vec!["g1".to_string(), "g2".to_string()]);
    // A field that is `@` alone, or has characters outside letters,
    // digits and underscore after the `@`, is a plain tag, not a uid.
    let m = parse_structure("H 0 0 0 @ g", conv).unwrap();
    let mut groups = m.get_groups();
    groups.sort();
    assert_eq!(groups, vec!["@".to_string(), "g".to_string()]);
    let m = parse_structure("H 0 0 0 @a-b g", conv).unwrap();
    let mut groups = m.get_groups();
    groups.sort();
    assert_eq!(groups, vec!["@a-b".to_string(), "g".to_string()]);
}

#[test]
fn duplicate_explicit_uid_fails() {
    let r = parse_structure("H 0 0 0 @a\nO 1 1 1 @a", conv);
    assert!(matches!(r, Err(MoleculeError::DuplicatedUniqId(u)) if u == "@a"));
}

#[test]
fn crlf_buffer() {
    let m = parse_structure("H 0 0 0 @a\r\nO 1 1 1 @b\r\n", conv).unwrap();
    assert_eq!(m.get_uids().len(), 2);
    assert!(m.get_atom("@b").is_some());
}

#[test]
fn duplicate_tags_on_one_line_collapse() {
    let m = parse_structure("H 0 0 0 @a g g h g", conv).unwrap();
    let rec = m.get_atom("@a").unwrap();
    assert_eq!(rec.groups, vec!["g".to_string(), "h".to_string()]);
}

#[test]
fn move_atoms_translates_only_the_group() {
    let m0 = parse_structure("H 0 0 0 @a G\nHe 2 2 2 @b G\nLi 5 5 5 @c", conv).unwrap();
    let mut m = m0;
    let moved = m.transform_atoms("G", |p: Position| {
        pos(f64::from_bits(p.x) + 1.0, f64::from_bits(p.y) + 0.0, f64::from_bits(p.z) + 0.0)
    });
    assert_eq!(moved.len(), 2);
    assert_eq!(moved[0].position, pos(1.0, 0.0, 0.0));
    assert_eq!(moved[1].position, pos(3.0, 2.0, 2.0));
    assert_eq!(m.get_atom("@c").unwrap().position, pos(5.0, 5.0, 5.0));
}

#[test]
fn rotate_atoms_quarter_turn_about_z() {
    let mut m = parse_structure("H 1 0 0 @a G", conv).unwrap();
    let (ax, ay, az) = (0.0f64, 0.0f64, 1.0f64);
    let angle = std::f64::consts::FRAC_PI_2;
    let (cos, sin) = (angle.cos(), angle.sin());
    let rot = [
        [
            cos + (1.0 - cos) * ax * ax,
            (1.0 - cos) * ax * ay - sin * az,
            (1.0 - cos) * ax * az + sin * ay,
        ],
        [
            (1.0 - cos) * ax * ay + sin * az,
            cos + (1.0 - cos) * ay * ay,
            (1.0 - cos) * ay * az - sin * ax,
        ],
        [
            (1.0 - cos) * ax * az - sin * ay,
            (1.0 - cos) * ay * az + sin * ax,
            cos + (1.0 - cos) * az * az,
        ],
    ];
    let rotated = m.transform_atoms("G", |p: Position| {
        let v = [f64::from_bits(p.x), f64::from_bits(p.y), f64::from_bits(p.z)];
        // row vector times matrix
        let r = [
            v[0] * rot[0][0] + v[1] * rot[1][0] + v[2] * rot[2][0],
            v[0] * rot[0][1] + v[1] * rot[1][1] + v[2] * rot[2][1],
            v[0] * rot[0][2] + v[1] * rot[1][2] + v[2] * rot[2][2],
        ];
        Position { x: r[0].to_bits(), y: r[1].to_bits(), z: r[2].to_bits() }
    });
    assert_eq!(rotated.len(), 1);
    let p = rotated[0].position;
    let (x, y, z) = (f64::from_bits(p.x), f64::from_bits(p.y), f64::from_bits(p.z));
    assert!(x.abs() < 1e-12);
    assert!((y - (-1.0)).abs() < 1e-12);
    assert!(z.abs() < 1e-12);
}

#[test]
fn remove_atoms_leaves_group_empty_and_others_intact() {
    let mut m = parse_structure("H 0 0 0 @a G\nO 1 1 1 @b\nC 2 2 2 @c G\nN 3 3 3 @d", conv)
        .unwrap();
    m.remove_atoms("G");
    assert!(m.get_group("G").is_empty());
    let uids = m.get_uids();
    assert_eq!(uids, vec!["@b".to_string(), "@d".to_string()]);
    assert_eq!(m.get_atom("@b").unwrap().position, pos(1.0, 1.0, 1.0));
    assert_eq!(m.get_atom("@d").unwrap().atom.element, Element::N);
}

#[test]
fn merge_as_group_replaces_tags() {
    let mut dst = parse_structure("H 0 0 0 @a old", conv).unwrap();
    let src = parse_structure("O 1 1 1 @b g1 g2\nC 2 2 2 @c", conv).unwrap();
    let merged = dst.merge_as_group("new", src, false).unwrap();
    assert_eq!(merged.len(), 2);
    for rec in &merged {
        assert_eq!(rec.groups, vec!["new".to_string()]);
    }
    assert_eq!(dst.get_uids().len(), 3);
}

#[test]
fn merge_as_group_can_keep_tags() {
    let mut dst = DescartesMole::new();
    let src = parse_structure("O 1 1 1 @b g1", conv).unwrap();
    let merged = dst.merge_as_group("new", src, true).unwrap();
    assert_eq!(merged.len(), 1);
    assert_eq!(merged[0].groups, vec!["g1".to_string(), "new".to_string()]);
}

#[test]
fn merge_with_shared_uid_fails() {
    let mut dst = parse_structure("H 0 0 0 @a", conv).unwrap();
    let src = parse_structure("O 1 1 1 @a", conv).unwrap();
    let r = dst.merge_as_group("new", src, false);
    assert!(matches!(r, Err(MoleculeError::DuplicatedUniqId(u)) if u == "@a"));
    assert_eq!(dst.get_uids().len(), 1);
}

#[test]
fn select_twice_is_idempotent() {
    let mut m = parse_structure("H 0 0 0 @a", conv).unwrap();
    assert_eq!(m.select("G", 0), Some(true));
    let size_after_first = m.get_atom("@a").unwrap().groups.len();
    assert_eq!(m.select("G", 0), Some(false));
    assert_eq!(m.get_atom("@a").unwrap().groups.len(), size_after_first);
    assert_eq!(m.select("G", 5), None);
}

#[test]
fn unselect_removes_tag() {
    let mut m = parse_structure("H 0 0 0 @a G", conv).unwrap();
    assert_eq!(m.unselect("G", 0), Some(true));
    assert_eq!(m.unselect("G", 0), Some(false));
    assert!(m.get_group("G").is_empty());
    assert_eq!(m.unselect("G", 9), None);
}

#[test]
fn get_groups_is_the_union_of_tags() {
    let mut m = parse_structure("H 0 0 0 @a g1 g2\nO 1 1 1 @b g2 g3", conv).unwrap();
    let mut groups = m.get_groups();
    groups.sort();
    assert_eq!(groups, vec!["g1".to_string(), "g2".to_string(), "g3".to_string()]);
    // removing the last holder of a tag removes the tag from the set
    m.remove_atoms("g1");
    let mut groups = m.get_groups();
    groups.sort();
    assert_eq!(groups, vec!["g2".to_string(), "g3".to_string()]);
}

#[test]
fn add_atom_checks_uid() {
    let mut m = DescartesMole::new();
    let atom = Atom { element: Element::H, formal_charge: 0, isotope: None };
    let u = m.add_atom(atom, pos(0.0, 0.0, 0.0), vec![], Some("@x".to_string())).unwrap();
    assert_eq!(u, "@x");
    let r = m.add_atom(atom, pos(1.0, 1.0, 1.0), vec![], Some("@x".to_string()));
    assert!(matches!(r, Err(MoleculeError::DuplicatedUniqId(d)) if d == "@x"));
    let generated = m.add_atom(atom, pos(1.0, 1.0, 1.0), vec![], None).unwrap();
    assert!(!generated.starts_with('@'));
    assert_eq!(m.get_uids().len(), 2);
}
