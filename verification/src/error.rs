//! What can go wrong in a session.

use vstd::prelude::*;

verus! {

/// Why a session has no transcript.
#[derive(Debug)]
pub enum XfyunASRError {
    CredentialsMissing,
    ConnectionFailed(String),
    SignaFailed(String),
    ServerError { code: String, desc: String },
    NoFinalResult,
    FinalResultTimeout,
}

/// What an error says.
pub enum ErrorView {
    CredentialsMissing,
    ConnectionFailed(Seq<char>),
    SignaFailed(Seq<char>),
    ServerError { code: Seq<char>, desc: Seq<char> },
    NoFinalResult,
    FinalResultTimeout,
}

impl View for XfyunASRError {
    type V = ErrorView;

    open spec fn view(&self) -> ErrorView {
        match *self {
            XfyunASRError::CredentialsMissing => ErrorView::CredentialsMissing,
            XfyunASRError::ConnectionFailed(why) => ErrorView::ConnectionFailed(why@),
            XfyunASRError::SignaFailed(why) => ErrorView::SignaFailed(why@),
            XfyunASRError::ServerError { code, desc } => ErrorView::ServerError {
                code: code@,
                desc: desc@,
            },
            XfyunASRError::NoFinalResult => ErrorView::NoFinalResult,
            XfyunASRError::FinalResultTimeout => ErrorView::FinalResultTimeout,
        }
    }
}

impl ErrorView {
    /// The error in words.
    pub open spec fn message(self) -> Seq<char> {
        match self {
            ErrorView::CredentialsMissing => "credentials missing"@,
            ErrorView::ConnectionFailed(why) => "connection failed: "@ + why,
            ErrorView::SignaFailed(why) => "signa generation failed: "@ + why,
            ErrorView::ServerError { code, desc } => "server error "@ + code + ": "@ + desc,
            ErrorView::NoFinalResult => "no final result"@,
            ErrorView::FinalResultTimeout => "final result timed out"@,
        }
    }
}

impl XfyunASRError {
    /// The error in words.
    pub fn message(&self) -> (text: String)
        ensures
            text@ == self@.message(),
    {
        match self {
            XfyunASRError::CredentialsMissing => "credentials missing".to_owned(),
            XfyunASRError::ConnectionFailed(why) => "connection failed: ".to_owned().concat(
                why.as_str(),
            ),
            XfyunASRError::SignaFailed(why) => "signa generation failed: ".to_owned().concat(
                why.as_str(),
            ),
            XfyunASRError::ServerError { code, desc } => "server error ".to_owned().concat(
                code.as_str(),
            ).concat(": ").concat(desc.as_str()),
            XfyunASRError::NoFinalResult => "no final result".to_owned(),
            XfyunASRError::FinalResultTimeout => "final result timed out".to_owned(),
        }
    }
}

/// The reason stands at the end of what an error says, as it was given, and what comes before it
/// is the same for every reason.
pub proof fn reason_ends_the_message(why: Seq<char>, more: Seq<char>, code: Seq<char>)
    ensures
        ErrorView::ConnectionFailed(Seq::empty()).message() == "connection failed: "@,
        ErrorView::ConnectionFailed(why + more).message() == ErrorView::ConnectionFailed(
            why,
        ).message() + more,
        ErrorView::SignaFailed(Seq::empty()).message() == "signa generation failed: "@,
        ErrorView::SignaFailed(why + more).message() == ErrorView::SignaFailed(why).message()
            + more,
        (ErrorView::ServerError { code, desc: why + more }).message() == (ErrorView::ServerError {
            code,
            desc: why,
        }).message() + more,
        (ErrorView::ServerError { code, desc: Seq::empty() }).message() == "server error "@ + code
            + ": "@,
{
    let nothing = Seq::<char>::empty();
    assert("connection failed: "@ + nothing =~= "connection failed: "@);
    assert("connection failed: "@ + (why + more) =~= "connection failed: "@ + why + more);
    assert("signa generation failed: "@ + nothing =~= "signa generation failed: "@);
    assert("signa generation failed: "@ + (why + more) =~= "signa generation failed: "@ + why
        + more);
    assert("server error "@ + code + ": "@ + (why + more) =~= "server error "@ + code + ": "@ + why
        + more);
    assert("server error "@ + code + ": "@ + nothing =~= "server error "@ + code + ": "@);
}

/// Errors without a reason say what they are.
pub proof fn errors_without_reason_say_what_they_are()
    ensures
        ErrorView::CredentialsMissing.message() == "credentials missing"@,
        ErrorView::NoFinalResult.message() == "no final result"@,
        ErrorView::FinalResultTimeout.message() == "final result timed out"@,
{
}

/// The view of an error shows which error it is and its reason.
pub proof fn view_shows_the_whole_error(error: XfyunASRError)
    ensures
        error is CredentialsMissing <==> error@ is CredentialsMissing,
        error is NoFinalResult <==> error@ is NoFinalResult,
        error is FinalResultTimeout <==> error@ is FinalResultTimeout,
        error matches XfyunASRError::ConnectionFailed(why) ==> error@
            == ErrorView::ConnectionFailed(why@),
        error matches XfyunASRError::SignaFailed(why) ==> error@ == ErrorView::SignaFailed(why@),
        error matches XfyunASRError::ServerError { code, desc } ==> error@ == (
        ErrorView::ServerError { code: code@, desc: desc@ }),
{
}

} // verus!
