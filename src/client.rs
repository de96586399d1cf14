use vstd::prelude::*;
use vstd::string::StringExecFns;

verus! {

/// Default number of resolved addresses raced in parallel.
pub const DEFAULT_GROUP_SIZE: usize = 5;

/// `s` split, in order, into consecutive groups of `size` items; the last
/// group may be shorter, and no group is empty.
pub open spec fn chunked<A>(s: Seq<A>, size: nat) -> Seq<Seq<A>>
    decreases s.len(),
{
    if s.len() == 0 {
        Seq::empty()
    } else if size == 0 || s.len() <= size {
        seq![s]
    } else {
        seq![s.take(size as int)] + chunked(s.skip(size as int), size)
    }
}

/// Split the resolved addresses of a target into the groups that are
/// connected to in turn, the addresses of one group in parallel.
pub fn address_groups<A: Copy>(addrs: &Vec<A>, size: usize) -> (r: Vec<Vec<A>>)
    requires
        size > 0,
    ensures
        r@.map_values(|g: Vec<A>| g@) == chunked(addrs@, size as nat),
{
    let n: usize = addrs.len();
    let mut groups: Vec<Vec<A>> = Vec::new();
    let mut i: usize = 0;
    assert(addrs@.skip(0) =~= addrs@);
    assert(groups@.map_values(|g: Vec<A>| g@) + chunked(addrs@, size as nat) =~= chunked(
        addrs@,
        size as nat,
    ));
    while i < n
        invariant
            n == addrs@.len(),
            size > 0,
            i <= n,
            groups@.map_values(|g: Vec<A>| g@) + chunked(addrs@.skip(i as int), size as nat)
                == chunked(addrs@, size as nat),
        decreases n - i,
    {
        let end: usize = if n - i <= size {
            n
        } else {
            i + size
        };
        let mut group: Vec<A> = Vec::new();
        let mut j: usize = i;
        while j < end
            invariant
                i <= j <= end <= n,
                n == addrs@.len(),
                group@ == addrs@.subrange(i as int, j as int),
            decreases end - j,
        {
            group.push(addrs[j]);
            assert(group@ =~= addrs@.subrange(i as int, j + 1));
            j = j + 1;
        }
        let ghost rest = addrs@.skip(i as int);
        let ghost before = groups@;
        groups.push(group);
        proof {
            assert(groups@.map_values(|g: Vec<A>| g@) =~= before.map_values(|g: Vec<A>| g@).push(
                addrs@.subrange(i as int, end as int),
            ));
            if n - i <= size {
                assert(rest =~= addrs@.subrange(i as int, end as int));
                assert(addrs@.skip(end as int) =~= Seq::<A>::empty());
            } else {
                assert(rest.take(size as int) =~= addrs@.subrange(i as int, end as int));
                assert(rest.skip(size as int) =~= addrs@.skip(end as int));
            }
            assert(before.map_values(|g: Vec<A>| g@) + chunked(rest, size as nat) =~= before.map_values(
                |g: Vec<A>| g@,
            ).push(addrs@.subrange(i as int, end as int)) + chunked(
                addrs@.skip(end as int),
                size as nat,
            ));
        }
        i = end;
    }
    assert(addrs@.skip(n as int) =~= Seq::<A>::empty());
    assert(groups@.map_values(|g: Vec<A>| g@) + Seq::<Seq<A>>::empty() =~= groups@.map_values(
        |g: Vec<A>| g@,
    ));
    groups
}

/// The fully qualified name looked up for a target host: the host with a
/// trailing `.`, so that no search domain is appended.
pub fn dns_query_name(host: &String) -> (r: String)
    ensures
        r@ == host@.push('.'),
{
    proof {
        reveal_strlit(".");
    }
    let r = host.clone().concat(".");
    assert(r@ =~= host@.push('.'));
    r
}

/// Why a connection to a target could not be established.
#[derive(Clone, Copy, Debug, PartialEq, Eq, Structural)]
pub enum ConnectError {
    /// The selection policy gave no target.
    InvalidAddr,
}

/// What happened at the last step of a connection attempt.
#[derive(Clone, Copy, Debug, PartialEq, Eq, Structural)]
pub enum ConnectEvent {
    /// The selection policy gave no target.
    NoTarget,
    /// The picked target's host resolved, and its addresses make `groups`
    /// groups.
    Resolved { groups: usize },
    /// The picked target's host could not be resolved.
    LookupFailed,
    /// No address of the group under way could be connected to.
    GroupFailed,
    /// An address of the group under way was connected to.
    Connected,
}

/// What a connection attempt does next.
#[derive(Clone, Copy, Debug, PartialEq, Eq, Structural)]
pub enum ConnectAction {
    /// Give up with this error.
    Fail(ConnectError),
    /// Ask the selection policy for a target and resolve it.
    PickTarget,
    /// Race a connect to every address of the group with this index.
    TryGroup(usize),
    /// Return the connection just established.
    Done,
}

/// Where a connection attempt stands: the group under way, out of the
/// groups of the current target.
#[derive(Clone, Copy, Debug, PartialEq, Eq, Structural)]
pub struct ConnectState {
    pub group: usize,
    pub groups: usize,
}

/// The decisions of a connection attempt. No target fails the attempt. A
/// target whose host does not resolve, or resolves to no address, counts as a
/// failed target: the policy is asked for another. The groups of a target
/// are tried in order; once the last one fails, the policy is asked for
/// another target. The first connection established ends the attempt.
pub open spec fn connect_decision(s: ConnectState, e: ConnectEvent) -> (ConnectState, ConnectAction) {
    let idle = ConnectState { group: 0, groups: 0 };
    match e {
        ConnectEvent::NoTarget => (idle, ConnectAction::Fail(ConnectError::InvalidAddr)),
        ConnectEvent::Resolved { groups } => if groups == 0 {
            (idle, ConnectAction::PickTarget)
        } else {
            (ConnectState { group: 0, groups }, ConnectAction::TryGroup(0))
        },
        ConnectEvent::LookupFailed => (idle, ConnectAction::PickTarget),
        ConnectEvent::GroupFailed => if s.group + 1 < s.groups {
            (
                ConnectState { group: (s.group + 1) as usize, groups: s.groups },
                ConnectAction::TryGroup((s.group + 1) as usize),
            )
        } else {
            (idle, ConnectAction::PickTarget)
        },
        ConnectEvent::Connected => (s, ConnectAction::Done),
    }
}

impl ConnectState {
    /// State of an attempt before anything was done; its first action is
    /// `ConnectAction::PickTarget`.
    pub fn new() -> (r: Self)
        ensures
            r == (ConnectState { group: 0, groups: 0 }),
    {
        ConnectState { group: 0, groups: 0 }
    }
}

/// Decide the next step of a connection attempt.
pub fn connect_step(s: ConnectState, e: ConnectEvent) -> (r: (ConnectState, ConnectAction))
    ensures
        r == connect_decision(s, e),
{
    let idle = ConnectState { group: 0, groups: 0 };
    match e {
        ConnectEvent::NoTarget => (idle, ConnectAction::Fail(ConnectError::InvalidAddr)),
        ConnectEvent::Resolved { groups } => if groups == 0 {
            (idle, ConnectAction::PickTarget)
        } else {
            (ConnectState { group: 0, groups }, ConnectAction::TryGroup(0))
        },
        ConnectEvent::LookupFailed => (idle, ConnectAction::PickTarget),
        ConnectEvent::GroupFailed => if s.groups > 0 && s.group < s.groups - 1 {
            (
                ConnectState { group: s.group + 1, groups: s.groups },
                ConnectAction::TryGroup(s.group + 1),
            )
        } else {
            (idle, ConnectAction::PickTarget)
        },
        ConnectEvent::Connected => (s, ConnectAction::Done),
    }
}

/// Order of a connection attempt: it fails only when the policy gives no
/// target; the first group of a target is tried only once the target
/// resolved to at least one group; group `j + 1` is tried only right after
/// group `j` failed; a failed last group or a failed lookup moves on to the
/// next target; and the attempt ends only on an established connection.
pub proof fn connect_order(s: ConnectState, e: ConnectEvent)
    ensures
        connect_decision(s, e).1 is Fail <==> e == ConnectEvent::NoTarget,
        connect_decision(s, e).1 == ConnectAction::Done <==> e == ConnectEvent::Connected,
        connect_decision(s, e).1 == ConnectAction::TryGroup(0) ==> (e matches ConnectEvent::Resolved {
            groups,
        } && groups > 0),
        connect_decision(s, e).1 matches ConnectAction::TryGroup(g) ==> (g > 0 ==> (e
            == ConnectEvent::GroupFailed && s.group + 1 == g && g < s.groups)),
        connect_decision(s, e).1 matches ConnectAction::TryGroup(g) ==> g < connect_decision(
            s,
            e,
        ).0.groups && connect_decision(s, e).0.group == g,
        e == ConnectEvent::LookupFailed ==> connect_decision(s, e).1 == ConnectAction::PickTarget,
        (e == ConnectEvent::GroupFailed && s.group + 1 >= s.groups) ==> connect_decision(s, e).1
            == ConnectAction::PickTarget,
{
}

} // verus!
