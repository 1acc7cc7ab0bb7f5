use ns_compiler::refcap::ReferenceCapability;
use ns_compiler::refcap::ReferenceCapability::{Box, Iso, Mut, Tag, Trn, Val};

const ALL: [ReferenceCapability; 6] = [Iso, Trn, Mut, Val, Box, Tag];

#[test]
fn alias_table_is_reflexive_plus_two_pairs() {
    let mut count = 0;
    for a in ALL {
        for b in ALL {
            let expected = a == b || (a == Iso && b == Tag) || (a == Trn && b == Box);
            assert_eq!(a._can_alias(b), expected, "{:?} / {:?}", a, b);
            if a._can_alias(b) {
                count += 1;
            }
        }
    }
    // six reflexive pairs, Iso beside Tag, Trn beside Box
    assert_eq!(count, 8);
    assert!(!Tag._can_alias(Iso));
    assert!(!Box._can_alias(Trn));
}

#[test]
fn sendable_exactly_iso_tag_val() {
    let sendable: Vec<ReferenceCapability> = ALL.iter().copied().filter(|c| c._sendable()).collect();
    assert_eq!(sendable, vec![Iso, Val, Tag]);
}

#[test]
fn mutable_exactly_iso_trn_mut() {
    let mutable: Vec<ReferenceCapability> = ALL.iter().copied().filter(|c| c._is_mutable()).collect();
    assert_eq!(mutable, vec![Iso, Trn, Mut]);
}

#[test]
fn mut_origin_is_transparent() {
    for x in ALL {
        assert_eq!(Mut._adapt_viewpoint(x), Some(x));
    }
}

#[test]
fn val_origin_absorbs() {
    for x in ALL {
        let expected = if x == Tag { Tag } else { Val };
        assert_eq!(Val._adapt_viewpoint(x), Some(expected));
    }
}

#[test]
fn tag_origin_grants_no_access() {
    for x in ALL {
        assert_eq!(Tag._adapt_viewpoint(x), None);
    }
}

#[test]
fn viewpoint_table_rows() {
    assert_eq!(Iso._adapt_viewpoint(Iso), Some(Iso));
    assert_eq!(Iso._adapt_viewpoint(Trn), Some(Tag));
    assert_eq!(Iso._adapt_viewpoint(Mut), Some(Tag));
    assert_eq!(Iso._adapt_viewpoint(Box), Some(Tag));
    assert_eq!(Iso._adapt_viewpoint(Val), Some(Val));
    assert_eq!(Iso._adapt_viewpoint(Tag), Some(Tag));
    assert_eq!(Trn._adapt_viewpoint(Trn), Some(Box));
    assert_eq!(Trn._adapt_viewpoint(Mut), Some(Box));
    assert_eq!(Trn._adapt_viewpoint(Iso), Some(Iso));
    assert_eq!(Trn._adapt_viewpoint(Val), Some(Val));
    assert_eq!(Box._adapt_viewpoint(Iso), Some(Tag));
    assert_eq!(Box._adapt_viewpoint(Trn), Some(Tag));
    assert_eq!(Box._adapt_viewpoint(Mut), Some(Tag));
    assert_eq!(Box._adapt_viewpoint(Val), Some(Val));
    assert_eq!(Box._adapt_viewpoint(Box), Some(Box));
    assert_eq!(Box._adapt_viewpoint(Tag), Some(Tag));
}

#[test]
fn capability_keywords() {
    let words: Vec<String> = ALL.iter().map(|c| c.to_string()).collect();
    assert_eq!(words, vec!["iso", "trn", "mut", "val", "box", "tag"]);
}
