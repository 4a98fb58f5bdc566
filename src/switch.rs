use crate::chain::names_of;
use crate::models::{selector_kind, ProxyInfo, SwitchRequest};
use vstd::prelude::*;

verus! {

/// Why a switch is refused before any request is made.
#[derive(Debug)]
pub enum SwitchError {
    /// Only selector groups can be switched by hand.
    NotASelector,
    /// The target is not a member of the group: the group's members, in
    /// order, and its current selection, for the caller to choose from.
    TargetNotMember { members: Vec<String>, current: String },
}

/// The group whose switch changes the chain that is shown as the status.
pub open spec fn chain_root() -> Seq<char> {
    "GLOBAL"@
}

/// Checks that `group` can be switched to `target` and gives the request
/// to send; a refusal sends nothing.
pub fn plan_switch(group: &ProxyInfo, target: &str) -> (r: Result<SwitchRequest, SwitchError>)
    ensures
        (r matches Err(SwitchError::NotASelector)) <==> group@.kind != selector_kind(),
        (r matches Err(SwitchError::TargetNotMember { .. })) <==> (group@.kind == selector_kind()
            && !group@.members.contains(target@)),
        r matches Err(SwitchError::TargetNotMember { members, current }) ==> names_of(members@)
            == group@.members && current@ == group@.active,
        r matches Ok(req) ==> req.name@ == target@,
{
    if !group.is_selector() {
        return Err(SwitchError::NotASelector);
    }
    let key = target.to_owned();
    let mut i: usize = 0;
    while i < group.all.len()
        invariant
            key@ == target@,
            group@.kind == selector_kind(),
            i <= group.all@.len(),
            forall|k: int| 0 <= k < i ==> group@.members[k] != target@,
        decreases group.all@.len() - i,
    {
        if group.all[i] == key {
            assert(group@.members[i as int] == target@);
            return Ok(SwitchRequest { name: key });
        }
        i = i + 1;
    }
    assert(!group@.members.contains(target@));
    let members = group.all.clone();
    assert(names_of(members@) =~= group@.members);
    Err(SwitchError::TargetNotMember { members, current: group.now.clone() })
}

/// The option numbered `number` (counted from 1) of a list shown to the user.
pub fn nth_choice(options: &Vec<String>, number: usize) -> (r: Option<String>)
    ensures
        r is Some <==> 1 <= number <= options@.len(),
        r matches Some(c) ==> c@ == options@[number - 1]@,
{
    if number == 0 || number > options.len() {
        None
    } else {
        Some(options[number - 1].clone())
    }
}

/// Whether switching `group` changes the chain shown from the root group,
/// so that the new chain is worth showing.
pub fn shows_chain(group: &str) -> (r: bool)
    ensures
        r == (group@ == chain_root()),
{
    let root = "GLOBAL".to_owned();
    let g = group.to_owned();
    g == root
}

} // verus!
