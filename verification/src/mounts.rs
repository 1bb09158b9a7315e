use vstd::prelude::*;
use crate::auth::{AuthGate, AuthState};
use crate::completion::{
    consume_completions, evaluate_errors, fails_for_good, lemma_outcome_of_recorded, run_outcome,
};
use crate::entry::{parse_entries, parsed, MountEntry, MountEntryView};
use crate::errors::AdsysMountError;
use crate::msg::{MountResult, MountStatus, Msg, MsgView, ProviderError, ProviderErrorKind};

verus! {

/// What is asked of the mount provider for one entry: the location to
/// mount, the mount flags as a bit set, whether the operation can be
/// cancelled, and what answers the prompts of this operation.
#[derive(Debug)]
pub struct MountRequest {
    pub uri: String,
    pub flags: u32,
    pub cancellable: bool,
    pub gate: AuthGate,
}

/// The model of a [`MountRequest`].
pub struct MountRequestView {
    pub uri: Seq<char>,
    pub flags: u32,
    pub cancellable: bool,
    pub gate: AuthGate,
}

impl View for MountRequest {
    type V = MountRequestView;

    open spec fn view(&self) -> MountRequestView {
        MountRequestView {
            uri: self.uri@,
            flags: self.flags,
            cancellable: self.cancellable,
            gate: self.gate,
        }
    }
}

impl DeepView for MountRequest {
    type V = MountRequestView;

    open spec fn deep_view(&self) -> MountRequestView {
        self@
    }
}

/// The request that mounts `entry`: its path is the location to mount, no
/// mount flag is set, the operation cannot be cancelled, and it starts
/// unprompted, offering anonymous access exactly if the entry asked for it.
pub open spec fn request_of(entry: MountEntryView) -> MountRequestView {
    MountRequestView {
        uri: entry.mount_path,
        flags: 0,
        cancellable: false,
        gate: AuthGate { is_anonymous: entry.is_anonymous, state: AuthState::Unset },
    }
}

/// Prepares the mount of `entry`. The operation gets a state of its own for
/// answering prompts, shared with no other operation.
pub fn handle_mount(entry: MountEntry) -> (request: MountRequest)
    ensures
        request@ == request_of(entry@),
{
    let MountEntry { mount_path, is_anonymous } = entry;
    MountRequest {
        uri: mount_path,
        flags: 0,
        cancellable: false,
        gate: AuthGate::new(is_anonymous),
    }
}

/// Prepares one mount for each entry, in the order of the entries. All of
/// them are handed out at once: no mount waits for another to complete.
pub fn dispatch(entries: Vec<MountEntry>) -> (requests: Vec<MountRequest>)
    ensures
        requests.deep_view() == entries.deep_view().map_values(
            |entry: MountEntryView| request_of(entry),
        ),
{
    let ghost wanted = entries.deep_view().map_values(|entry: MountEntryView| request_of(entry));
    let mut requests: Vec<MountRequest> = Vec::new();
    for entry in pending: entries
        invariant
            wanted.len() == pending.seq().len(),
            forall|i: int| 0 <= i < wanted.len() ==> wanted[i] == request_of(pending.seq()[i]@),
            requests.len() == pending.index(),
            forall|i: int| 0 <= i < requests.len() ==> requests[i]@ == wanted[i],
    {
        requests.push(handle_mount(entry));
    }
    assert(requests.deep_view() =~= wanted);
    requests
}

/// The message for the completion of the mount of `path`: `Done` where the
/// provider reported success, its error where it reported one.
pub fn mount_handled_cb(path: String, result: Result<(), ProviderError>) -> (msg: Msg)
    ensures
        msg@ == (MsgView {
            path: path@,
            status: match result {
                Ok(_) => Ok(MountStatus::Done),
                Err(error) => Err(error@),
            },
        }),
{
    let status: MountResult = match result {
        Ok(_) => Ok(MountStatus::Done),
        Err(error) => Err(error),
    };
    Msg { path, status }
}

/// The result that is owed for the mounts file and the completions of its
/// mounts: a parse error without a readable file, whatever the completions;
/// otherwise the outcome of the run over as many completions as the file
/// lists entries.
pub open spec fn handled(content: Option<Seq<char>>, events: Seq<MsgView>) -> Result<
    (),
    AdsysMountError,
> {
    match content {
        None => Err(AdsysMountError::ParseError),
        Some(text) => run_outcome(events.take(parsed(text).len() as int)),
    }
}

/// The view of the content of a mounts file, where there is one.
pub open spec fn content_view(content: Option<&str>) -> Option<Seq<char>> {
    match content {
        None => None,
        Some(text) => Some(text@),
    }
}

/// Handles the mounts of a session. `content` is the text of the mounts
/// file, or `None` where the file could not be read; `completions` are the
/// completions that the provider reports, in their order of arrival, one for
/// each mount.
///
/// Without a readable file the result is a parse error and no completion is
/// looked at. With no entry the result is success, again with no completion
/// looked at. Otherwise as many completions are consumed as there are
/// entries, and the result is a mount error exactly if one of those is a
/// failure of another kind than "already mounted".
pub fn handle_user_mounts(content: Option<&str>, completions: Vec<Msg>) -> (result: Result<
    (),
    AdsysMountError,
>)
    requires
        content matches Some(text) ==> parsed(text@).len() <= completions@.len(),
    ensures
        result == handled(content_view(content), completions.deep_view()),
{
    let text = match content {
        None => {
            return Err(AdsysMountError::ParseError);
        },
        Some(text) => text,
    };
    let parsed_entries = parse_entries(text);
    assert(parsed_entries.deep_view().len() == parsed_entries@.len());
    proof {
        lemma_outcome_of_recorded(completions.deep_view().take(parsed(text@).len() as int));
    }
    if parsed_entries.is_empty() {
        return Ok(());
    }
    let mounts = parsed_entries.len();
    let (errors, _) = consume_completions(mounts, completions);
    evaluate_errors(&errors)
}

/// With no entry to mount the result is success, whatever completions are
/// at hand.
pub proof fn lemma_nothing_to_mount_succeeds(text: Seq<char>, events: Seq<MsgView>)
    requires
        parsed(text).len() == 0,
    ensures
        handled(Some(text), events) == Ok::<(), AdsysMountError>(()),
{
}

/// Without a readable file the result is a parse error, whatever completions
/// are at hand; with one, the result is never a parse error.
pub proof fn lemma_parse_error_only_without_content(
    content: Option<Seq<char>>,
    events: Seq<MsgView>,
)
    ensures
        handled(content, events) == Err::<(), AdsysMountError>(AdsysMountError::ParseError)
            <==> content is None,
{
}

/// If every mount succeeds, the run succeeds.
pub proof fn lemma_all_done_succeeds(events: Seq<MsgView>)
    requires
        forall|i: int| 0 <= i < events.len() ==> (#[trigger] events[i]).status is Ok,
    ensures
        run_outcome(events) == Ok::<(), AdsysMountError>(()),
{
}

/// Mounting is idempotent: if the mounts that fail all fail as "already
/// mounted" and the others succeed, the run succeeds. This holds in
/// particular where exactly one mount fails so.
pub proof fn lemma_already_mounted_succeeds(events: Seq<MsgView>)
    requires
        forall|i: int|
            0 <= i < events.len() ==> match (#[trigger] events[i]).status {
                Ok(_) => true,
                Err(error) => error.kind == ProviderErrorKind::AlreadyMounted,
            },
    ensures
        run_outcome(events) == Ok::<(), AdsysMountError>(()),
{
}

/// If the mount that completes at `failed` fails with another kind than
/// "already mounted", the run ends in a mount error, whatever becomes of the
/// other mounts.
pub proof fn lemma_other_failure_is_mount_error(events: Seq<MsgView>, failed: int)
    requires
        0 <= failed < events.len(),
        events[failed].status matches Err(error) && error.kind
            != ProviderErrorKind::AlreadyMounted,
    ensures
        run_outcome(events) == Err::<(), AdsysMountError>(AdsysMountError::MountError),
{
    assert(fails_for_good(events[failed]));
}

/// The order in which the completions arrive does not change the result:
/// two runs whose completions are the same up to their order end alike.
pub proof fn lemma_order_does_not_matter(first: Seq<MsgView>, second: Seq<MsgView>)
    requires
        first.to_multiset() == second.to_multiset(),
    ensures
        run_outcome(first) == run_outcome(second),
{
    broadcast use vstd::seq_lib::group_to_multiset_ensures;

    if exists|i: int| 0 <= i < first.len() && fails_for_good(#[trigger] first[i]) {
        let i = choose|i: int| 0 <= i < first.len() && fails_for_good(#[trigger] first[i]);
        assert(first.to_multiset().count(first[i]) > 0);
        assert(second.contains(first[i]));
    }
    if exists|i: int| 0 <= i < second.len() && fails_for_good(#[trigger] second[i]) {
        let i = choose|i: int| 0 <= i < second.len() && fails_for_good(#[trigger] second[i]);
        assert(second.to_multiset().count(second[i]) > 0);
        assert(first.contains(second[i]));
    }
}

} // verus!
