use vstd::prelude::*;

verus! {

/// The status that a mount attempt reports.
#[derive(Clone, Copy, Debug, PartialEq, Eq, Structural)]
#[non_exhaustive]
pub enum MountStatus {
    /// The location is mounted.
    Done,
    /// Credentials were asked for once. This marks an attempt in progress
    /// and is no final outcome.
    Asked,
}

/// What the provider's error taxonomy tells this library: whether the failure
/// is that the location is mounted already.
#[derive(Clone, Copy, Debug, PartialEq, Eq, Structural)]
pub enum ProviderErrorKind {
    /// The location is already attached.
    AlreadyMounted,
    /// Any other failure.
    Other,
}

/// A failure reported by the mount provider.
#[derive(Debug)]
pub struct ProviderError {
    pub kind: ProviderErrorKind,
    pub message: String,
}

/// The model of a [`ProviderError`].
pub struct ProviderErrorView {
    pub kind: ProviderErrorKind,
    pub message: Seq<char>,
}

impl View for ProviderError {
    type V = ProviderErrorView;

    open spec fn view(&self) -> ProviderErrorView {
        ProviderErrorView { kind: self.kind, message: self.message@ }
    }
}

impl DeepView for ProviderError {
    type V = ProviderErrorView;

    open spec fn deep_view(&self) -> ProviderErrorView {
        self@
    }
}

/// The outcome of one mount attempt.
pub type MountResult = Result<MountStatus, ProviderError>;

/// The model of a [`MountResult`].
pub type MountResultView = Result<MountStatus, ProviderErrorView>;

/// The model of the outcome `status`.
pub open spec fn status_view(status: MountResult) -> MountResultView {
    match status {
        Ok(s) => Ok(s),
        Err(e) => Err(e@),
    }
}

/// The message that a finished mount attempt sends to the consumer of
/// completions.
#[derive(Debug)]
pub struct Msg {
    pub path: String,
    pub status: MountResult,
}

/// The model of a [`Msg`].
pub struct MsgView {
    pub path: Seq<char>,
    pub status: MountResultView,
}

impl View for Msg {
    type V = MsgView;

    open spec fn view(&self) -> MsgView {
        MsgView { path: self.path@, status: status_view(self.status) }
    }
}

impl DeepView for Msg {
    type V = MsgView;

    open spec fn deep_view(&self) -> MsgView {
        self@
    }
}

/// A failed mount attempt, as the completion tracker records it.
#[derive(Debug)]
pub struct MountError {
    pub path: String,
    pub error: ProviderError,
}

/// The model of a [`MountError`].
pub struct MountErrorView {
    pub path: Seq<char>,
    pub error: ProviderErrorView,
}

impl View for MountError {
    type V = MountErrorView;

    open spec fn view(&self) -> MountErrorView {
        MountErrorView { path: self.path@, error: self.error@ }
    }
}

impl DeepView for MountError {
    type V = MountErrorView;

    open spec fn deep_view(&self) -> MountErrorView {
        self@
    }
}

} // verus!
