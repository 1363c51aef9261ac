//! Moving the selection up and down a list of users.

use crate::messages::ClientId;
use vstd::prelude::*;

verus! {

/// The first place at which `id` stands in `list`.
pub open spec fn first_place(list: Seq<ClientId>, id: ClientId) -> Option<int>
    decreases list.len(),
{
    if list.len() == 0 {
        None
    } else if list[0] == id {
        Some(0)
    } else {
        match first_place(list.drop_first(), id) {
            Some(place) => Some(place + 1),
            None => None,
        }
    }
}

/// The user that is selected after a step up or down. From nobody, or
/// from a user who is not listed, the step goes to the end of the list
/// when it goes up and to the start when it goes down; from a listed user
/// it goes to the neighbour, around the ends. Nobody is selected in an
/// empty list.
pub open spec fn stepped(list: Seq<ClientId>, selected: Option<ClientId>, is_up: bool) -> Option<
    ClientId,
> {
    let place = match selected {
        Some(id) => first_place(list, id),
        None => None,
    };
    match place {
        None => {
            if list.len() == 0 {
                None
            } else if is_up {
                Some(list.last())
            } else {
                Some(list[0])
            }
        },
        Some(at) => {
            if is_up {
                if at == 0 {
                    Some(list.last())
                } else {
                    Some(list[at - 1])
                }
            } else {
                if at + 1 == list.len() {
                    Some(list[0])
                } else {
                    Some(list[at + 1])
                }
            }
        },
    }
}

/// A place before which `id` does not stand, and at which it does, is the
/// first; a list in which it stands nowhere has none.
pub proof fn lemma_first_place(list: Seq<ClientId>, id: ClientId, upto: int)
    requires
        0 <= upto <= list.len(),
        forall|j: int| 0 <= j < upto ==> list[j] != id,
    ensures
        upto < list.len() && list[upto] == id ==> first_place(list, id) == Some(upto),
        upto == list.len() ==> first_place(list, id) is None,
        first_place(list, id) matches Some(place) ==> 0 <= place < list.len() && list[place] == id,
    decreases list.len(),
{
    if list.len() > 0 {
        let rest = list.drop_first();
        if upto > 0 {
            assert(list[0] != id);
            lemma_first_place(rest, id, upto - 1);
        } else if list[0] != id {
            lemma_first_place(rest, id, 0);
        }
    }
}

/// Where `id` first stands in `list`.
fn find(list: &Vec<ClientId>, id: ClientId) -> (place: Option<usize>)
    ensures
        match first_place(list@, id) {
            Some(at) => 0 <= at < list@.len() && place == Some(at as usize),
            None => place is None,
        },
{
    let mut i: usize = 0;
    while i < list.len()
        invariant
            i <= list.len(),
            forall|j: int| 0 <= j < i ==> list@[j] != id,
        decreases list.len() - i,
    {
        if list[i] == id {
            proof {
                lemma_first_place(list@, id, i as int);
            }
            return Some(i);
        }
        i = i + 1;
    }
    proof {
        lemma_first_place(list@, id, i as int);
    }
    None
}

/// Moves the selection one step up or down the list.
pub fn next_selected(list: &Vec<ClientId>, selected: Option<ClientId>, is_up: bool) -> (next:
    Option<ClientId>)
    ensures
        next == stepped(list@, selected, is_up),
{
    let ln = list.len();
    let place = match selected {
        Some(id) => find(list, id),
        None => None,
    };
    match place {
        None => {
            if ln == 0 {
                None
            } else if is_up {
                Some(list[ln - 1])
            } else {
                Some(list[0])
            }
        },
        Some(curpos) => {
            if is_up {
                if curpos == 0 {
                    Some(list[ln - 1])
                } else {
                    Some(list[curpos - 1])
                }
            } else {
                if curpos + 1 == ln {
                    Some(list[0])
                } else {
                    Some(list[curpos + 1])
                }
            }
        },
    }
}

} // verus!
