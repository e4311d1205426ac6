//! The connections that were let in, and what becomes of them when the policy changes.

use vstd::prelude::*;

use crate::addr::IpAddr;
use crate::white::policy;
use crate::white::policy::Policy;

verus! {

/// A connection that was let in, with the source it came from.
pub struct TrackedConnection<H> {
    pub source: IpAddr,
    pub connection: H,
}

/// The elements of `s` at the positions whose flag is set, in order.
pub open spec fn select<A>(s: Seq<A>, flags: Seq<bool>) -> Seq<A>
    decreases s.len(),
{
    if s.len() == 0 {
        Seq::empty()
    } else if flags[s.len() - 1] {
        select(s.drop_last(), flags).push(s.last())
    } else {
        select(s.drop_last(), flags)
    }
}

/// The positions of live connections whose source `policy` permits.
pub open spec fn kept_flags<H>(
    s: Seq<TrackedConnection<H>>,
    live: Seq<bool>,
    policy: policy::PolicyView,
) -> Seq<bool> {
    Seq::new(s.len(), |i: int| live[i] && policy.permits(s[i].source))
}

/// The positions of live connections whose source `policy` does not permit.
pub open spec fn stopped_flags<H>(
    s: Seq<TrackedConnection<H>>,
    live: Seq<bool>,
    policy: policy::PolicyView,
) -> Seq<bool> {
    Seq::new(s.len(), |i: int| live[i] && !policy.permits(s[i].source))
}

/// The handles of tracked connections.
pub open spec fn handles<H>(s: Seq<TrackedConnection<H>>) -> Seq<H> {
    s.map_values(|entry: TrackedConnection<H>| entry.connection)
}

/// The connections that were let in, oldest first. `H` is the program's handle on one.
pub struct TrackedConnections<H> {
    pub entries: Vec<TrackedConnection<H>>,
}

impl<H> View for TrackedConnections<H> {
    type V = Seq<TrackedConnection<H>>;

    open spec fn view(&self) -> Seq<TrackedConnection<H>> {
        self.entries@
    }
}

impl<H> TrackedConnections<H> {
    pub fn new() -> (r: Self)
        ensures
            r@ == Seq::<TrackedConnection<H>>::empty(),
    {
        TrackedConnections { entries: Vec::new() }
    }

    /// Forgets the connections whose flag in `live` is not set.
    fn retain(&mut self, live: &Vec<bool>)
        requires
            live.len() == old(self)@.len(),
        ensures
            final(self)@ == select(old(self)@, live@),
    {
        let mut all: Vec<TrackedConnection<H>> = Vec::new();
        std::mem::swap(&mut all, &mut self.entries);
        let ghost s = all@;
        let mut kept: Vec<TrackedConnection<H>> = Vec::new();
        let mut i: usize = 0;
        for entry in it: all
            invariant
                it.seq() == s,
                i == it.index(),
                i <= s.len() == live.len(),
                kept@ == select(s.take(i as int), live@),
        {
            assert(s.take(i + 1).drop_last() == s.take(i as int));
            if live[i] {
                kept.push(entry);
            }
            i = i + 1;
        }
        assert(s.take(i as int) == s);
        self.entries = kept;
    }

    /// Lets a connection in if `policy` permits its source: forgets the connections that are
    /// no longer live and tracks the new one. `live` says of each tracked connection whether
    /// it still exists. The caller looks at the policy once more afterwards, since it may
    /// have changed meanwhile.
    pub fn authorize(
        &mut self,
        policy: &Policy,
        source: IpAddr,
        connection: H,
        live: &Vec<bool>,
    ) -> (r: bool)
        requires
            live.len() == old(self)@.len(),
        ensures
            r == policy@.permits(source),
            r ==> final(self)@ == select(old(self)@, live@).push(
                TrackedConnection { source, connection },
            ),
            !r ==> final(self)@ == old(self)@,
    {
        if !policy.allows(source) {
            return false;
        }
        self.retain(live);
        self.entries.push(TrackedConnection { source, connection });
        true
    }

    /// Applies a new policy: keeps the live connections whose source it permits and returns
    /// the handles of the live ones whose source it does not, to be stopped, oldest first.
    pub fn reload(&mut self, policy: &Policy, live: &Vec<bool>) -> (stopped: Vec<H>)
        requires
            live.len() == old(self)@.len(),
        ensures
            final(self)@ == select(old(self)@, kept_flags(old(self)@, live@, policy@)),
            stopped@ == handles(select(old(self)@, stopped_flags(old(self)@, live@, policy@))),
    {
        let mut all: Vec<TrackedConnection<H>> = Vec::new();
        std::mem::swap(&mut all, &mut self.entries);
        let ghost s = all@;
        let ghost keep = kept_flags(s, live@, policy@);
        let ghost stop = stopped_flags(s, live@, policy@);
        let mut kept: Vec<TrackedConnection<H>> = Vec::new();
        let mut stopped: Vec<H> = Vec::new();
        let mut i: usize = 0;
        for entry in it: all
            invariant
                it.seq() == s,
                i == it.index(),
                i <= s.len() == live.len(),
                keep == kept_flags(s, live@, policy@),
                stop == stopped_flags(s, live@, policy@),
                kept@ == select(s.take(i as int), keep),
                stopped@ == handles(select(s.take(i as int), stop)),
        {
            assert(s.take(i + 1).drop_last() == s.take(i as int));
            let ghost gone = select(s.take(i as int), stop);
            assert(handles(gone.push(entry)) == handles(gone).push(entry.connection));
            if live[i] {
                if policy.allows(entry.source) {
                    kept.push(entry);
                } else {
                    stopped.push(entry.connection);
                }
            }
            i = i + 1;
        }
        assert(s.take(i as int) == s);
        self.entries = kept;
        stopped
    }
}

proof fn lemma_select_only<A>(s: Seq<A>, flags: Seq<bool>, j: int) -> (i: int)
    requires
        0 <= j < select(s, flags).len(),
    ensures
        0 <= i < s.len(),
        flags[i],
        select(s, flags)[j] == s[i],
    decreases s.len(),
{
    if flags[s.len() - 1] && j == select(s.drop_last(), flags).len() {
        s.len() - 1
    } else {
        lemma_select_only(s.drop_last(), flags, j)
    }
}

proof fn lemma_select_all<A>(s: Seq<A>, flags: Seq<bool>, i: int) -> (j: int)
    requires
        0 <= i < s.len(),
        flags[i],
    ensures
        0 <= j < select(s, flags).len(),
        select(s, flags)[j] == s[i],
    decreases s.len(),
{
    if i == s.len() - 1 {
        select(s.drop_last(), flags).len() as int
    } else {
        lemma_select_all(s.drop_last(), flags, i)
    }
}

/// After a reload every tracked connection has a source that the new policy permits.
pub proof fn law_reload_leaves_only_permitted_sources<H>(
    s: Seq<TrackedConnection<H>>,
    live: Seq<bool>,
    policy: policy::PolicyView,
)
    ensures
        forall|j: int|
            0 <= j < select(s, kept_flags(s, live, policy)).len() ==> policy.permits(
                (#[trigger] select(s, kept_flags(s, live, policy))[j]).source,
            ),
{
    let flags = kept_flags(s, live, policy);
    assert forall|j: int| 0 <= j < select(s, flags).len() implies policy.permits(
        (#[trigger] select(s, flags)[j]).source,
    ) by {
        let i = lemma_select_only(s, flags, j);
    }
}

/// A reload stops every live connection whose source the new policy does not permit, and
/// keeps every live one whose source it does.
pub proof fn law_reload_splits_the_live_connections<H>(
    s: Seq<TrackedConnection<H>>,
    live: Seq<bool>,
    policy: policy::PolicyView,
    i: int,
)
    requires
        0 <= i < s.len(),
        live[i],
    ensures
        policy.permits(s[i].source) ==> select(s, kept_flags(s, live, policy)).contains(s[i]),
        !policy.permits(s[i].source) ==> handles(
            select(s, stopped_flags(s, live, policy)),
        ).contains(s[i].connection),
{
    if policy.permits(s[i].source) {
        let j = lemma_select_all(s, kept_flags(s, live, policy), i);
    } else {
        let flags = stopped_flags(s, live, policy);
        let j = lemma_select_all(s, flags, i);
        assert(handles(select(s, flags))[j] == s[i].connection);
    }
}

/// A reload stops no connection whose source the new policy permits: with filtering off it
/// stops none at all.
pub proof fn law_reload_stops_no_permitted_source<H>(
    s: Seq<TrackedConnection<H>>,
    live: Seq<bool>,
    policy: policy::PolicyView,
    j: int,
)
    requires
        0 <= j < select(s, stopped_flags(s, live, policy)).len(),
    ensures
        policy.enabled,
        !policy.permits(select(s, stopped_flags(s, live, policy))[j].source),
{
    let i = lemma_select_only(s, stopped_flags(s, live, policy), j);
}

/// Looking at the policy again after tracking a connection leaves no gap. Take a reload that
/// stores a policy at `stored` and applies it to the tracked connections `s` at `swept`, and
/// an authorization that tracks a connection at `added` and looks at the policy again at
/// `checked`. If the new policy does not permit the source, then either the second look
/// comes after the new policy was stored, and is refused, or the reload stops the connection.
pub proof fn law_second_look_leaves_no_gap<H>(
    s: Seq<TrackedConnection<H>>,
    live: Seq<bool>,
    policy: policy::PolicyView,
    connection: TrackedConnection<H>,
    stored: int,
    swept: int,
    added: int,
    checked: int,
)
    requires
        stored < swept,
        added < checked,
        added < swept ==> exists|i: int|
            0 <= i < s.len() && #[trigger] s[i] == connection && live[i],
        !policy.permits(connection.source),
    ensures
        stored < checked || handles(select(s, stopped_flags(s, live, policy))).contains(
            connection.connection,
        ),
{
    if checked <= stored {
        let i = choose|i: int| 0 <= i < s.len() && #[trigger] s[i] == connection && live[i];
        law_reload_splits_the_live_connections(s, live, policy, i);
    }
}

/// The selected elements are those whose flag is set, each once and in their order: the result
/// is the positions that they had.
pub proof fn law_selection_keeps_the_order<A>(s: Seq<A>, flags: Seq<bool>) -> (at: Seq<int>)
    ensures
        at.len() == select(s, flags).len(),
        forall|j: int|
            0 <= j < at.len() ==> 0 <= #[trigger] at[j] < s.len() && flags[at[j]] && select(
                s,
                flags,
            )[j] == s[at[j]],
        forall|j: int, k: int| 0 <= j < k < at.len() ==> #[trigger] at[j] < #[trigger] at[k],
        forall|i: int| 0 <= i < s.len() && #[trigger] flags[i] ==> at.contains(i),
    decreases s.len(),
{
    if s.len() == 0 {
        Seq::empty()
    } else {
        let last = s.len() - 1;
        let before = law_selection_keeps_the_order(s.drop_last(), flags);
        if flags[last] {
            let at = before.push(last);
            assert forall|i: int| 0 <= i < s.len() && #[trigger] flags[i] implies at.contains(
                i,
            ) by {
                if i < last {
                    assert(before.contains(i));
                    let j = choose|j: int| 0 <= j < before.len() && before[j] == i;
                    assert(at[j] == i);
                } else {
                    assert(at[before.len() as int] == i);
                }
            }
            at
        } else {
            before
        }
    }
}

/// A reload keeps the connections that are live and permitted, stops those that are live and
/// not permitted, and forgets the rest. The result is the positions of the first and of the
/// second; both keep their order, and what is handed out to be stopped is the handle of each.
pub proof fn law_reload_keeps_stops_and_forgets<H>(
    s: Seq<TrackedConnection<H>>,
    live: Seq<bool>,
    policy: policy::PolicyView,
) -> (at: (Seq<int>, Seq<int>))
    ensures
        at.0.len() == select(s, kept_flags(s, live, policy)).len(),
        at.1.len() == handles(select(s, stopped_flags(s, live, policy))).len(),
        forall|j: int|
            0 <= j < at.0.len() ==> 0 <= #[trigger] at.0[j] < s.len() && select(
                s,
                kept_flags(s, live, policy),
            )[j] == s[at.0[j]],
        forall|j: int|
            0 <= j < at.1.len() ==> 0 <= #[trigger] at.1[j] < s.len() && handles(
                select(s, stopped_flags(s, live, policy)),
            )[j] == s[at.1[j]].connection,
        forall|j: int, k: int| 0 <= j < k < at.0.len() ==> #[trigger] at.0[j] < #[trigger] at.0[k],
        forall|j: int, k: int| 0 <= j < k < at.1.len() ==> #[trigger] at.1[j] < #[trigger] at.1[k],
        forall|i: int|
            #![trigger s[i]]
            0 <= i < s.len() ==> (at.0.contains(i) <==> live[i] && policy.permits(s[i].source)),
        forall|i: int|
            #![trigger s[i]]
            0 <= i < s.len() ==> (at.1.contains(i) <==> live[i] && !policy.permits(s[i].source)),
{
    let keep = kept_flags(s, live, policy);
    let stop = stopped_flags(s, live, policy);
    let kept = law_selection_keeps_the_order(s, keep);
    let stopped = law_selection_keeps_the_order(s, stop);
    assert forall|i: int|
        #![trigger s[i]]
        0 <= i < s.len() implies (kept.contains(i) <==> live[i] && policy.permits(s[i].source)) by {
        assert(keep[i] == (live[i] && policy.permits(s[i].source)));
        if kept.contains(i) {
            let j = choose|j: int| 0 <= j < kept.len() && kept[j] == i;
            assert(keep[kept[j]]);
        }
    }
    assert forall|i: int|
        #![trigger s[i]]
        0 <= i < s.len() implies (stopped.contains(i) <==> live[i] && !policy.permits(
        s[i].source,
    )) by {
        assert(stop[i] == (live[i] && !policy.permits(s[i].source)));
        if stopped.contains(i) {
            let j = choose|j: int| 0 <= j < stopped.len() && stopped[j] == i;
            assert(stop[stopped[j]]);
        }
    }
    (kept, stopped)
}

/// The flags and the handles, connection by connection.
pub proof fn law_flags_and_handles<H>(
    connections: TrackedConnections<H>,
    live: Seq<bool>,
    policy: policy::PolicyView,
    i: int,
)
    requires
        0 <= i < connections.entries@.len(),
    ensures
        connections@ == connections.entries@,
        ({
            let s = connections@;
            &&& kept_flags(s, live, policy)[i] <==> live[i] && policy.permits(s[i].source)
            &&& stopped_flags(s, live, policy)[i] <==> live[i] && !policy.permits(s[i].source)
            &&& handles(s).len() == s.len()
            &&& handles(s)[i] == s[i].connection
        }),
{
}

} // verus!
