use rscc::typecell::{Type, TypeCell};

#[test]
fn typecell_typecell_eq() {
    let mut t1 = TypeCell::new(Type::Int);
    let mut t2 = TypeCell::new(Type::Int);
    assert_eq!(t1, t2);

    t1 = TypeCell {
        typ: Type::Ptr,
        ptr_end: Some(Type::Int),
        chains: 1,
        ..Default::default()
    };
    assert_ne!(t1, t2);

    t2 = TypeCell {
        typ: Type::Ptr,
        ptr_end: Some(Type::Int),
        chains: 2,
        ..Default::default()
    };
    assert_ne!(t1, t2);

    t1 = TypeCell {
        typ: Type::Ptr,
        ptr_end: Some(Type::Int),
        chains: 2,
        ..Default::default()
    };

    assert_eq!(t1, t2);
}
