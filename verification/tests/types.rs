use dx25_dex::types::{PoolId, Side, SwapKind};

#[test]
fn pool_id_either_order() {
    let (forward, swapped_forward) = PoolId::try_from_pair((3, 7)).unwrap();
    let (backward, swapped_backward) = PoolId::try_from_pair((7, 3)).unwrap();
    assert_eq!(forward, backward);
    assert_ne!(swapped_forward, swapped_backward);
    assert_eq!((*forward.as_refs().0, *forward.as_refs().1), (7, 3));
}

#[test]
fn side_and_kind_opposites() {
    assert_eq!(Side::Left.opposite(), Side::Right);
    assert_eq!(Side::Right.opposite().opposite(), Side::Right);
    assert_eq!(Side::Left.opposite_if(false), Side::Left);
    assert_eq!(SwapKind::ExactIn.opposite(), SwapKind::ExactOut);
    assert_eq!(SwapKind::ExactOut.opposite(), SwapKind::ExactIn);
}
