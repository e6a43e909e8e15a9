//! Batch refresh: which refresh calls a batch issues, and how each answer is
//! reported. Every planned call is issued whatever the others answered.
use vstd::prelude::*;
use crate::registry::{ResourceRegistry, group_lookup};
use crate::token::TokenResponse;

verus! {

/// Which groups a batch covers.
pub enum DispatchMode {
    AllGroups,
    SingleGroup(u32),
}

/// Why a batch could not be planned.
pub enum DispatchError {
    /// No group has this key; the caller may ask again.
    NotFound(u32),
}

/// One refresh call to issue: a POST to `url` with `bearer` as bearer
/// authorization and an empty body.
pub struct RefreshCall {
    pub group_key: u32,
    pub resource_id: String,
    pub url: String,
    pub bearer: String,
}

/// The answer to one refresh call.
pub enum RefreshOutcome {
    /// A success-class status.
    Success(u16),
    /// Any other status, or no response at all.
    Failure(Option<u16>),
}

/// One line of the batch report.
pub struct RefreshReport {
    pub group_key: u32,
    pub resource_id: String,
    pub outcome: RefreshOutcome,
}

/// The refresh endpoint of a dataset.
pub open spec fn refresh_url_spec(id: Seq<char>) -> Seq<char> {
    "https://api.powerbi.com/v1.0/myorg/datasets/"@ + id + "/refreshes"@
}

/// The refresh endpoint of the dataset `resource_id`.
pub fn refresh_url(resource_id: &str) -> (r: String)
    ensures
        r@ == refresh_url_spec(resource_id@),
{
    let mut url = String::from_str("https://api.powerbi.com/v1.0/myorg/datasets/");
    url.append(resource_id);
    url.append("/refreshes");
    url
}

/// The (group key, dataset) targets of one group, in stored order.
pub open spec fn group_calls(key: u32, members: Seq<String>) -> Seq<(u32, String)> {
    Seq::new(members.len(), |i: int| (key, members[i]))
}

/// The targets of every group, group after group.
pub open spec fn all_calls(g: Seq<(u32, Seq<String>)>) -> Seq<(u32, String)>
    decreases g.len(),
{
    if g.len() == 0 {
        Seq::empty()
    } else {
        all_calls(g.drop_last()) + group_calls(g.last().0, g.last().1)
    }
}

/// How many datasets the groups hold together.
pub open spec fn total_members(g: Seq<(u32, Seq<String>)>) -> nat
    decreases g.len(),
{
    if g.len() == 0 {
        0
    } else {
        total_members(g.drop_last()) + g.last().1.len()
    }
}

/// The targets of a list of calls.
pub open spec fn call_targets(calls: Seq<RefreshCall>) -> Seq<(u32, String)> {
    calls.map_values(|c: RefreshCall| (c.group_key, c.resource_id))
}

/// Each call goes to its dataset's endpoint and carries the token's credential.
pub open spec fn calls_carry(calls: Seq<RefreshCall>, token: TokenResponse) -> bool {
    forall|i: int|
        0 <= i < calls.len() ==> (#[trigger] calls[i]).url@ == refresh_url_spec(calls[i].resource_id@)
            && calls[i].bearer@ == token.access_token@
}

/// What a batch plans for `mode` over the groups `g`.
pub open spec fn planned_targets(mode: DispatchMode, g: Seq<(u32, Seq<String>)>) -> Result<
    Seq<(u32, String)>,
    u32,
> {
    match mode {
        DispatchMode::AllGroups => Ok(all_calls(g)),
        DispatchMode::SingleGroup(k) => match group_lookup(g, k) {
            Some(m) => Ok(group_calls(k, m)),
            None => Err(k),
        },
    }
}

/// Appends one call per member of a group, in stored order.
fn push_group_calls(calls: &mut Vec<RefreshCall>, key: u32, members: &Vec<String>, token: &TokenResponse)
    requires
        calls_carry(old(calls)@, *token),
    ensures
        call_targets(final(calls)@) == call_targets(old(calls)@) + group_calls(key, members@),
        calls_carry(final(calls)@, *token),
{
    let ghost start = call_targets(calls@);
    let mut i: usize = 0;
    while i < members.len()
        invariant
            i <= members.len(),
            call_targets(calls@) == start + group_calls(key, members@).take(i as int),
            calls_carry(calls@, *token),
        decreases members.len() - i,
    {
        let ghost before = calls@;
        let call = RefreshCall {
            group_key: key,
            resource_id: members[i].clone(),
            url: refresh_url(members[i].as_str()),
            bearer: token.access_token.clone(),
        };
        calls.push(call);
        assert(call_targets(calls@) =~= call_targets(before).push((key, members@[i as int])));
        assert(group_calls(key, members@).take(i as int + 1) =~= group_calls(key, members@).take(
            i as int,
        ).push((key, members@[i as int])));
        assert forall|t: int| 0 <= t < calls@.len() implies (#[trigger] calls@[t]).url@ == refresh_url_spec(
            calls@[t].resource_id@,
        ) && calls@[t].bearer@ == token.access_token@ by {
            if t < before.len() {
                assert(calls@[t] == before[t]);
            }
        }
        i = i + 1;
    }
    assert(group_calls(key, members@).take(members@.len() as int) =~= group_calls(key, members@));
}

/// Plans a batch: one call per dataset of the selected groups, each to that
/// dataset's endpoint with the token's credential. An unknown group key is
/// `NotFound`, and then no call is planned.
pub fn dispatch(mode: DispatchMode, registry: &ResourceRegistry, token: &TokenResponse) -> (r: Result<
    Vec<RefreshCall>,
    DispatchError,
>)
    ensures
        match planned_targets(mode, registry.view()) {
            Ok(targets) => r matches Ok(calls) && call_targets(calls@) == targets && calls_carry(
                calls@,
                *token,
            ),
            Err(k) => r matches Err(DispatchError::NotFound(k2)) && k2 == k,
        },
{
    let mut calls: Vec<RefreshCall> = Vec::new();
    match mode {
        DispatchMode::AllGroups => {
            let ghost g = registry.view();
            let n = registry.len();
            let mut i: usize = 0;
            while i < n
                invariant
                    n == g.len(),
                    g == registry.view(),
                    i <= n,
                    call_targets(calls@) == all_calls(g.take(i as int)),
                    calls_carry(calls@, *token),
                decreases n - i,
            {
                let group = registry.group(i);
                push_group_calls(&mut calls, group.key, &group.members, token);
                assert(g.take(i as int + 1).drop_last() =~= g.take(i as int));
                i = i + 1;
            }
            assert(g.take(n as int) =~= g);
            assert(call_targets(Seq::<RefreshCall>::empty()) =~= Seq::<(u32, String)>::empty());
            Ok(calls)
        },
        DispatchMode::SingleGroup(k) => match registry.find(k) {
            Some(members) => {
                assert(call_targets(calls@) =~= Seq::<(u32, String)>::empty());
                push_group_calls(&mut calls, k, members, token);
                assert(call_targets(calls@) =~= group_calls(k, members@));
                Ok(calls)
            },
            None => Err(DispatchError::NotFound(k)),
        },
    }
}

/// How an answer is reported: a status from 200 to 299 is a success; any
/// other status, or no response, is a failure.
pub open spec fn outcome_of(answer: Option<u16>) -> RefreshOutcome {
    match answer {
        Some(status) => if 200 <= status <= 299 {
            RefreshOutcome::Success(status)
        } else {
            RefreshOutcome::Failure(Some(status))
        },
        None => RefreshOutcome::Failure(None),
    }
}

/// Classifies the answer to one refresh call.
pub fn classify_response(answer: Option<u16>) -> (r: RefreshOutcome)
    ensures
        r == outcome_of(answer),
{
    match answer {
        Some(status) => if 200 <= status && status <= 299 {
            RefreshOutcome::Success(status)
        } else {
            RefreshOutcome::Failure(Some(status))
        },
        None => RefreshOutcome::Failure(None),
    }
}

/// The report lines as (group key, dataset, outcome).
pub open spec fn report_view(r: Seq<RefreshReport>) -> Seq<(u32, String, RefreshOutcome)> {
    r.map_values(|x: RefreshReport| (x.group_key, x.resource_id, x.outcome))
}

/// One report line per target, in order, each with the outcome of its own answer.
pub open spec fn reports_of(targets: Seq<(u32, String)>, answers: Seq<Option<u16>>) -> Seq<
    (u32, String, RefreshOutcome),
> {
    Seq::new(targets.len(), |i: int| (targets[i].0, targets[i].1, outcome_of(answers[i])))
}

/// Pairs each issued call with the answer it got: one report line per call,
/// in the order of the calls.
pub fn collect_outcomes(calls: &Vec<RefreshCall>, answers: &Vec<Option<u16>>) -> (r: Vec<RefreshReport>)
    requires
        calls.len() == answers.len(),
    ensures
        report_view(r@) == reports_of(call_targets(calls@), answers@),
{
    let mut r: Vec<RefreshReport> = Vec::new();
    let mut i: usize = 0;
    while i < calls.len()
        invariant
            i <= calls.len(),
            calls.len() == answers.len(),
            report_view(r@) == reports_of(call_targets(calls@), answers@).take(i as int),
        decreases calls.len() - i,
    {
        let ghost before = r@;
        let line = RefreshReport {
            group_key: calls[i].group_key,
            resource_id: calls[i].resource_id.clone(),
            outcome: classify_response(answers[i]),
        };
        r.push(line);
        assert(report_view(r@) =~= report_view(before).push((line.group_key, line.resource_id, line.outcome)));
        assert(call_targets(calls@)[i as int] == (calls@[i as int].group_key, calls@[i as int].resource_id));
        assert(report_view(r@) =~= reports_of(call_targets(calls@), answers@).take(i as int + 1));
        i = i + 1;
    }
    assert(reports_of(call_targets(calls@), answers@).take(calls.len() as int) =~= reports_of(
        call_targets(calls@),
        answers@,
    ));
    r
}

/// The (group key, dataset) of each report line.
pub open spec fn report_targets(r: Seq<(u32, String, RefreshOutcome)>) -> Seq<(u32, String)> {
    r.map_values(|x: (u32, String, RefreshOutcome)| (x.0, x.1))
}

/// Failures are isolated per call: the calls of a batch are fixed before any
/// is issued, so whatever each call answers (a failure on one dataset
/// included) the report covers exactly the planned calls, in order, and two
/// runs with different answers cover the same calls.
pub proof fn lemma_answers_do_not_change_calls(
    targets: Seq<(u32, String)>,
    first: Seq<Option<u16>>,
    second: Seq<Option<u16>>,
)
    requires
        first.len() == targets.len(),
        second.len() == targets.len(),
    ensures
        report_targets(reports_of(targets, first)) == targets,
        report_targets(reports_of(targets, first)) == report_targets(reports_of(targets, second)),
        report_targets(reports_of(targets, first)).to_multiset() == targets.to_multiset(),
{
    assert(report_targets(reports_of(targets, first)) =~= targets);
    assert(report_targets(reports_of(targets, second)) =~= targets);
}

/// The number of datasets in the groups before position `gi`.
pub open spec fn offset_of(g: Seq<(u32, Seq<String>)>, gi: int) -> nat {
    total_members(g.take(gi))
}

/// Dispatching every group issues exactly one call per dataset: there are as
/// many calls as datasets, and the call at position `offset_of(g, gi) + mi` is
/// dataset `mi` of group `gi`. The report that comes back has one line per
/// call, for that call's dataset, whatever each call answered.
pub proof fn lemma_all_groups_one_call_per_resource(g: Seq<(u32, Seq<String>)>, answers: Seq<Option<u16>>)
    requires
        answers.len() == total_members(g),
    ensures
        all_calls(g).len() == total_members(g),
        forall|gi: int, mi: int|
            0 <= gi < g.len() && 0 <= mi < g[gi].1.len() ==> #[trigger] all_calls(g)[offset_of(g, gi) + mi]
                == (g[gi].0, g[gi].1[mi]) && offset_of(g, gi) + mi < total_members(g),
        reports_of(all_calls(g), answers).len() == total_members(g),
        forall|i: int|
            0 <= i < total_members(g) ==> (#[trigger] reports_of(all_calls(g), answers)[i]).0 == all_calls(g)[i].0
                && reports_of(all_calls(g), answers)[i].1 == all_calls(g)[i].1,
{
    lemma_all_calls_layout(g);
}

/// The calls of all groups lie group after group.
proof fn lemma_all_calls_layout(g: Seq<(u32, Seq<String>)>)
    ensures
        all_calls(g).len() == total_members(g),
        forall|gi: int, mi: int|
            0 <= gi < g.len() && 0 <= mi < g[gi].1.len() ==> #[trigger] all_calls(g)[offset_of(g, gi) + mi]
                == (g[gi].0, g[gi].1[mi]) && offset_of(g, gi) + mi < total_members(g),
    decreases g.len(),
{
    if g.len() > 0 {
        let p = g.drop_last();
        let last = g.len() - 1;
        lemma_all_calls_layout(p);
        assert(g.take(last) =~= p);
        assert forall|gi: int, mi: int| 0 <= gi < g.len() && 0 <= mi < g[gi].1.len() implies #[trigger] all_calls(
            g,
        )[offset_of(g, gi) + mi] == (g[gi].0, g[gi].1[mi]) && offset_of(g, gi) + mi < total_members(g) by {
            if gi < last {
                assert(g.take(gi) =~= p.take(gi));
                assert(p[gi] == g[gi]);
                assert(all_calls(p)[offset_of(p, gi) + mi] == (p[gi].0, p[gi].1[mi]));
            }
        }
    }
}

} // verus!
