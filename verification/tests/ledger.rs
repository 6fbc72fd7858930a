use jarde_reader::ledger::UsageOwner;

/// The three owners are the declared list, in the declared order, and each has its own slot.
#[test]
fn the_owner_list_is_the_declared_three_in_order() {
    assert_eq!(
        UsageOwner::ALL,
        [UsageOwner::Discovery, UsageOwner::Methods, UsageOwner::Delivery]
    );
    let mut indexes = Vec::new();
    for owner in UsageOwner::ALL {
        let index = owner.index();
        assert_eq!(UsageOwner::ALL[index], owner);
        indexes.push(index);
    }
    indexes.sort_unstable();
    assert_eq!(indexes, (0..UsageOwner::ALL.len()).collect::<Vec<_>>());
}
