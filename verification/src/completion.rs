use vstd::prelude::*;
use crate::errors::AdsysMountError;
use crate::msg::{MountError, MountErrorView, Msg, MsgView, ProviderErrorKind};

verus! {

/// The failures on record once `msg` has been consumed: a failed attempt is
/// appended with its path, any other status leaves the record as it was.
pub open spec fn record(errors: Seq<MountErrorView>, msg: MsgView) -> Seq<MountErrorView> {
    match msg.status {
        Err(error) => errors.push(MountErrorView { path: msg.path, error }),
        Ok(_) => errors,
    }
}

/// The failures on record once `events` have been consumed in this order,
/// starting from an empty record.
pub open spec fn recorded(events: Seq<MsgView>) -> Seq<MountErrorView>
    decreases events.len(),
{
    if events.len() == 0 {
        Seq::empty()
    } else {
        record(recorded(events.drop_last()), events.last())
    }
}

/// Whether every failure in `errors` says that the location was mounted
/// already.
pub open spec fn all_already_mounted(errors: Seq<MountErrorView>) -> bool {
    forall|i: int|
        0 <= i < errors.len() ==> (#[trigger] errors[i]).error.kind
            == ProviderErrorKind::AlreadyMounted
}

/// The aggregate outcome for a record of failures: success unless some
/// failure is of another kind than "already mounted".
pub open spec fn outcome(errors: Seq<MountErrorView>) -> Result<(), AdsysMountError> {
    if all_already_mounted(errors) {
        Ok(())
    } else {
        Err(AdsysMountError::MountError)
    }
}

/// Whether `msg` reports a failure of another kind than "already mounted".
pub open spec fn fails_for_good(msg: MsgView) -> bool {
    match msg.status {
        Err(error) => error.kind != ProviderErrorKind::AlreadyMounted,
        Ok(_) => false,
    }
}

/// The aggregate outcome of a run whose mounts completed as `events`: a
/// mount error if one of them failed for good, success otherwise.
pub open spec fn run_outcome(events: Seq<MsgView>) -> Result<(), AdsysMountError> {
    if exists|i: int| 0 <= i < events.len() && fails_for_good(#[trigger] events[i]) {
        Err(AdsysMountError::MountError)
    } else {
        Ok(())
    }
}

/// Consumes one completion. A failure is appended to `errors`; `Done` and the
/// unexpected `Asked` change nothing there. The countdown `mounts_left` drops
/// by one, and the answer says whether more completions are awaited: `false`
/// exactly when the countdown has reached zero, which is when the caller
/// stops consuming.
pub fn user_mount_cb(msg: Msg, errors: &mut Vec<MountError>, mounts_left: &mut usize) -> (keep_going: bool)
    requires
        *old(mounts_left) > 0,
    ensures
        *final(mounts_left) == *old(mounts_left) - 1,
        keep_going == (*final(mounts_left) != 0),
        final(errors).deep_view() == record(old(errors).deep_view(), msg@),
{
    let ghost before = errors.deep_view();
    let Msg { path, status } = msg;
    match status {
        Err(error) => {
            errors.push(MountError { path, error });
            assert(errors.deep_view() =~= before.push(
                MountErrorView { path: path@, error: error@ },
            ));
        },
        Ok(_) => {},
    }
    *mounts_left = *mounts_left - 1;
    *mounts_left != 0
}

/// Consuming one more completion extends the record by that completion.
pub proof fn lemma_recorded_step(events: Seq<MsgView>, count: int)
    requires
        0 <= count < events.len(),
    ensures
        recorded(events.take(count + 1)) == record(recorded(events.take(count)), events[count]),
{
    assert(events.take(count + 1).drop_last() =~= events.take(count));
}

/// Runs the completion loop for `mounts` dispatched entries over the
/// completions in their order of arrival. Each completion goes through
/// [`user_mount_cb`], whose answer alone ends the loop. The loop is not
/// entered for zero mounts; otherwise it consumes exactly `mounts`
/// completions and stops right after the last of them. The result holds the
/// failures among those, in order, and the number of completions consumed.
pub fn consume_completions(mounts: usize, completions: Vec<Msg>) -> (settled: (
    Vec<MountError>,
    usize,
))
    requires
        mounts <= completions@.len(),
    ensures
        settled.1 == mounts,
        settled.0.deep_view() == recorded(completions.deep_view().take(mounts as int)),
{
    let ghost events = completions.deep_view();
    let mut errors: Vec<MountError> = Vec::new();
    let mut consumed: usize = 0;
    if mounts == 0 {
        assert(errors.deep_view() =~= recorded(events.take(0)));
        return (errors, consumed);
    }
    let mut mounts_left: usize = mounts;
    assert(errors.deep_view() =~= recorded(events.take(0)));
    for msg in arrivals: completions
        invariant_except_break
            mounts_left > 0,
            consumed == arrivals.index(),
        invariant
            consumed + mounts_left == mounts,
            mounts <= arrivals.seq().len(),
            events.len() == arrivals.seq().len(),
            forall|i: int| 0 <= i < events.len() ==> events[i] == arrivals.seq()[i]@,
            errors.deep_view() == recorded(events.take(consumed as int)),
        ensures
            mounts_left == 0,
    {
        proof {
            lemma_recorded_step(events, consumed as int);
        }
        let keep_going = user_mount_cb(msg, &mut errors, &mut mounts_left);
        consumed = consumed + 1;
        if !keep_going {
            break ;
        }
    }
    (errors, consumed)
}

/// Every failure on record is "already mounted" exactly if no completion
/// failed for good.
pub proof fn lemma_recorded_kinds(events: Seq<MsgView>)
    ensures
        all_already_mounted(recorded(events)) <==> forall|i: int|
            0 <= i < events.len() ==> !fails_for_good(#[trigger] events[i]),
    decreases events.len(),
{
    if events.len() > 0 {
        let front = events.drop_last();
        let last = events.last();
        lemma_recorded_kinds(front);
        let before = recorded(front);
        let now = recorded(events);
        if all_already_mounted(now) {
            assert forall|i: int| 0 <= i < events.len() implies !fails_for_good(
                #[trigger] events[i],
            ) by {
                if i < front.len() {
                    assert forall|j: int| 0 <= j < before.len() implies (#[trigger] before[j]).error.kind
                        == ProviderErrorKind::AlreadyMounted by {
                        assert(before[j] == now[j]);
                    }
                    assert(front[i] == events[i]);
                } else if last.status is Err {
                    assert(now[now.len() - 1].error.kind == ProviderErrorKind::AlreadyMounted);
                }
            }
        }
        if forall|i: int| 0 <= i < events.len() ==> !fails_for_good(#[trigger] events[i]) {
            assert forall|i: int| 0 <= i < front.len() implies !fails_for_good(
                #[trigger] front[i],
            ) by {
                assert(front[i] == events[i]);
            }
            assert(!fails_for_good(events[events.len() - 1]));
            assert forall|j: int| 0 <= j < now.len() implies (#[trigger] now[j]).error.kind
                == ProviderErrorKind::AlreadyMounted by {
                if j < before.len() {
                    assert(now[j] == before[j]);
                }
            }
        }
    }
}

/// Deciding from the failures on record gives the outcome of the run.
pub proof fn lemma_outcome_of_recorded(events: Seq<MsgView>)
    ensures
        outcome(recorded(events)) == run_outcome(events),
{
    lemma_recorded_kinds(events);
}

/// Decides the overall result from the failures on record: success when there
/// is none or when each says "already mounted", a mount error otherwise.
pub fn evaluate_errors(errors: &Vec<MountError>) -> (result: Result<(), AdsysMountError>)
    ensures
        result == outcome(errors.deep_view()),
{
    let mut i: usize = 0;
    while i < errors.len()
        invariant
            i <= errors.len(),
            all_already_mounted(errors.deep_view().take(i as int)),
        decreases errors.len() - i,
    {
        match errors[i].error.kind {
            ProviderErrorKind::AlreadyMounted => {},
            ProviderErrorKind::Other => {
                assert(errors.deep_view()[i as int].error.kind == ProviderErrorKind::Other);
                return Err(AdsysMountError::MountError);
            },
        }
        i = i + 1;
        assert forall|j: int| 0 <= j < i implies (#[trigger] errors.deep_view().take(
            i as int,
        )[j]).error.kind == ProviderErrorKind::AlreadyMounted by {
            if j < i - 1 {
                assert(errors.deep_view().take(i - 1)[j] == errors.deep_view()[j]);
            }
        }
    }
    assert(errors.deep_view().take(i as int) =~= errors.deep_view());
    Ok(())
}

} // verus!
