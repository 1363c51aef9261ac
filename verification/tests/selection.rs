use chatproto::messages::ClientId;
use chatproto::selection::next_selected;

fn ids(values: &[u128]) -> Vec<ClientId> {
    values.iter().map(|v| ClientId::from(*v)).collect()
}

#[test]
fn selection_in_an_empty_list() {
    assert_eq!(next_selected(&vec![], None, true), None);
    assert_eq!(next_selected(&vec![], None, false), None);
    assert_eq!(next_selected(&vec![], Some(ClientId::from(1u128)), true), None);
}

#[test]
fn selection_from_nobody() {
    let list = ids(&[10, 20, 30]);
    assert_eq!(next_selected(&list, None, true), Some(ClientId::from(30u128)));
    assert_eq!(next_selected(&list, None, false), Some(ClientId::from(10u128)));
    let gone = Some(ClientId::from(99u128));
    assert_eq!(next_selected(&list, gone, true), Some(ClientId::from(30u128)));
    assert_eq!(next_selected(&list, gone, false), Some(ClientId::from(10u128)));
}

#[test]
fn selection_goes_around_the_ends() {
    let list = ids(&[10, 20, 30]);
    let at = |v: u128| Some(ClientId::from(v));
    assert_eq!(next_selected(&list, at(10), true), at(30));
    assert_eq!(next_selected(&list, at(20), true), at(10));
    assert_eq!(next_selected(&list, at(30), true), at(20));
    assert_eq!(next_selected(&list, at(10), false), at(20));
    assert_eq!(next_selected(&list, at(20), false), at(30));
    assert_eq!(next_selected(&list, at(30), false), at(10));
    let one = ids(&[7]);
    assert_eq!(next_selected(&one, at(7), true), at(7));
    assert_eq!(next_selected(&one, at(7), false), at(7));
    let twice = ids(&[5, 6, 5, 8]);
    assert_eq!(next_selected(&twice, at(5), false), at(6));
    assert_eq!(next_selected(&twice, at(5), true), at(8));
}
