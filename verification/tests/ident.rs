use schema_dumper::ident::{assign_idents, fresh_ident, sanitize_ident};

fn rows(names: &[&[u8]]) -> Vec<Vec<u8>> {
    names.iter().map(|n| n.to_vec()).collect()
}

#[test]
fn sanitizing_keeps_a_legal_identifier() {
    assert_eq!(sanitize_ident(b"m_iHealth"), b"m_iHealth".to_vec());
    assert_eq!(sanitize_ident(b"_x9"), b"_x9".to_vec());
}

#[test]
fn sanitizing_replaces_illegal_bytes() {
    assert_eq!(sanitize_ident(b"client.dll"), b"client_dll".to_vec());
    assert_eq!(sanitize_ident(b"CHandle<C_BaseEntity>"), b"CHandle_C_BaseEntity_".to_vec());
    assert_eq!(sanitize_ident(b"a b\tc"), b"a_b_c".to_vec());
    assert_eq!(sanitize_ident(&[0xff, b'a', 0x00]), b"_a_".to_vec());
}

#[test]
fn sanitizing_guards_the_first_byte() {
    assert_eq!(sanitize_ident(b""), b"_".to_vec());
    assert_eq!(sanitize_ident(b"1abc"), b"_1abc".to_vec());
    assert_eq!(sanitize_ident(b"9"), b"_9".to_vec());
}

#[test]
fn sanitizing_twice_is_sanitizing_once() {
    let names: [&[u8]; 6] = [b"", b"1abc", b"client.dll", b"ok", b"a-b-c", b"\xf0\x9f\x98\x80"];
    for name in names {
        let once = sanitize_ident(name);
        let twice = sanitize_ident(&once);
        assert_eq!(once, twice);
    }
}

#[test]
fn a_free_name_is_taken_as_it_is() {
    let used = rows(&[b"a", b"b"]);
    assert_eq!(fresh_ident(b"c", &used), b"c".to_vec());
    assert_eq!(fresh_ident(b"c", &Vec::new()), b"c".to_vec());
}

#[test]
fn a_taken_name_gets_the_first_free_counter() {
    let used = rows(&[b"a"]);
    assert_eq!(fresh_ident(b"a", &used), b"a_1".to_vec());
    let more = rows(&[b"a", b"a_1", b"a_2"]);
    assert_eq!(fresh_ident(b"a", &more), b"a_3".to_vec());
    let holes = rows(&[b"a", b"a_2"]);
    assert_eq!(fresh_ident(b"a", &holes), b"a_1".to_vec());
}

#[test]
fn colliding_names_get_distinct_identifiers() {
    let names = rows(&[b"x", b"x", b"x"]);
    assert_eq!(assign_idents(&names), rows(&[b"x", b"x_1", b"x_2"]));
}

#[test]
fn names_that_collide_only_after_sanitizing_are_told_apart() {
    let names = rows(&[b"a.b", b"a-b", b"a_b"]);
    assert_eq!(assign_idents(&names), rows(&[b"a_b", b"a_b_1", b"a_b_2"]));
}

#[test]
fn a_counter_never_lands_on_a_name_that_is_taken() {
    let names = rows(&[b"a", b"a_1", b"a"]);
    assert_eq!(assign_idents(&names), rows(&[b"a", b"a_1", b"a_2"]));
    let other = rows(&[b"a", b"a", b"a_1"]);
    assert_eq!(assign_idents(&other), rows(&[b"a", b"a_1", b"a_1_1"]));
}

#[test]
fn identifiers_are_pairwise_distinct() {
    let names = rows(&[b"", b"_", b"1", b"_1", b"-", b"", b"__1"]);
    let idents = assign_idents(&names);
    assert_eq!(idents.len(), names.len());
    for i in 0..idents.len() {
        for j in 0..i {
            assert_ne!(idents[i], idents[j]);
        }
    }
}

#[test]
fn earlier_identifiers_do_not_depend_on_later_names() {
    let short = rows(&[b"p", b"p"]);
    let long = rows(&[b"p", b"p", b"p_1", b"q"]);
    let first = assign_idents(&short);
    let second = assign_idents(&long);
    assert_eq!(first[..], second[..2]);
}
