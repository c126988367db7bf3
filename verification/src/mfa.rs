//! Keyboard-interactive (MFA) answers for SSH jump servers, gathered through a form.

use vstd::prelude::*;

use crate::seqs::views;
use crate::text::{chars_contain, contains, copy_str, str_chars, trim, trim_bounds};

verus! {

/// The text that marks the error returned when a jump server asks for answers that
/// have not been given yet.
pub const JUMP_MFA_REQUIRED_MARKER: &'static str = "__onetcli_jump_mfa_required__";

/// Which server of a connection asks the questions.
#[derive(Clone, Copy, Debug, PartialEq, Eq, Structural)]
pub enum KeyboardInteractiveTarget {
    JumpServer,
    TargetServer,
}

/// One question of a keyboard-interactive request.
#[derive(Clone, Debug, PartialEq, Eq)]
pub struct KeyboardInteractivePrompt {
    pub prompt: String,
    /// Whether the answer may be shown while typed.
    pub echo: bool,
}

/// A keyboard-interactive request from a server.
#[derive(Clone, Debug, PartialEq, Eq)]
pub struct KeyboardInteractiveRequest {
    pub target: KeyboardInteractiveTarget,
    pub name: String,
    pub instructions: String,
    pub prompts: Vec<KeyboardInteractivePrompt>,
}

/// One question as the form shows it.
#[derive(Clone, Debug, PartialEq, Eq)]
pub struct FormMfaPrompt {
    pub prompt: String,
    pub echo: bool,
}

/// A request as the form shows it.
#[derive(Clone, Debug, PartialEq, Eq)]
pub struct FormMfaRequest {
    pub name: String,
    pub instructions: String,
    pub prompts: Vec<FormMfaPrompt>,
}

/// Whether `error` is the error of a jump server that needs answers from the form.
pub fn is_jump_mfa_required_error(error: &str) -> (r: bool)
    ensures
        r == contains(error@, JUMP_MFA_REQUIRED_MARKER@),
{
    let e = str_chars(error);
    let m = str_chars(JUMP_MFA_REQUIRED_MARKER);
    chars_contain(&e, &m)
}

/// Every question has an answer that is not blank.
pub open spec fn responses_complete(prompt_count: nat, responses: Seq<Seq<char>>) -> bool {
    prompt_count == responses.len() && forall|i: int| 0 <= i < responses.len() ==> #[trigger] trim(responses[i]).len() > 0
}

/// Whether there is one non-blank answer for each question.
pub fn mfa_responses_are_complete(prompts: &[KeyboardInteractivePrompt], responses: &[String]) -> (r: bool)
    ensures
        r == responses_complete(prompts@.len(), views(responses@)),
{
    if prompts.len() != responses.len() {
        return false;
    }
    let mut i: usize = 0;
    while i < responses.len()
        invariant
            i <= responses@.len(),
            forall|k: int| 0 <= k < i ==> #[trigger] trim(views(responses@)[k]).len() > 0,
        decreases responses@.len() - i,
    {
        let v = str_chars(responses[i].as_str());
        assert(v@.subrange(0, v@.len() as int) =~= v@);
        let (a, b) = trim_bounds(&v, 0, v.len());
        if a == b {
            assert(trim(views(responses@)[i as int]).len() == 0);
            return false;
        }
        i += 1;
    }
    true
}

/// The form for a keyboard-interactive request: only jump servers that ask at least
/// one question are answered through the form.
pub fn form_mfa_request_from_keyboard_interactive(request: &KeyboardInteractiveRequest) -> (r: Option<FormMfaRequest>)
    ensures
        r is None <==> (request.target != KeyboardInteractiveTarget::JumpServer || request.prompts@.len() == 0),
        r matches Some(f) ==> (f.name@ == request.name@ && f.instructions@ == request.instructions@
            && f.prompts@.len() == request.prompts@.len() && forall|i: int| 0 <= i < f.prompts@.len()
            ==> (#[trigger] f.prompts@[i]).prompt@ == request.prompts@[i].prompt@ && f.prompts@[i].echo
            == request.prompts@[i].echo),
{
    if request.target != KeyboardInteractiveTarget::JumpServer || request.prompts.len() == 0 {
        return None;
    }
    let mut prompts: Vec<FormMfaPrompt> = Vec::new();
    let mut i: usize = 0;
    while i < request.prompts.len()
        invariant
            i <= request.prompts@.len(),
            prompts@.len() == i,
            forall|k: int| 0 <= k < i ==> (#[trigger] prompts@[k]).prompt@ == request.prompts@[k].prompt@
                && prompts@[k].echo == request.prompts@[k].echo,
        decreases request.prompts@.len() - i,
    {
        prompts.push(form_mfa_prompt_from_keyboard_interactive(&request.prompts[i]));
        i += 1;
    }
    Some(FormMfaRequest {
        name: copy_str(request.name.as_str()),
        instructions: copy_str(request.instructions.as_str()),
        prompts,
    })
}

fn form_mfa_prompt_from_keyboard_interactive(prompt: &KeyboardInteractivePrompt) -> (r: FormMfaPrompt)
    ensures
        r.prompt@ == prompt.prompt@,
        r.echo == prompt.echo,
{
    FormMfaPrompt { prompt: copy_str(prompt.prompt.as_str()), echo: prompt.echo }
}

/// Why a jump server's request was not answered.
#[derive(Clone, Copy, Debug, PartialEq, Eq, Structural)]
pub enum MfaRefusal {
    /// Only jump servers are answered from the form.
    TargetNotSupported,
    /// The form has not supplied complete answers yet; the request was captured.
    JumpMfaRequired,
}

impl MfaRefusal {
    /// The marker text carried by a [`MfaRefusal::JumpMfaRequired`] error.
    pub fn marker(&self) -> (r: Option<&'static str>)
        ensures
            *self == MfaRefusal::JumpMfaRequired ==> (r matches Some(m) && m@ == JUMP_MFA_REQUIRED_MARKER@),
            *self == MfaRefusal::TargetNotSupported ==> r is None,
    {
        match self {
            MfaRefusal::JumpMfaRequired => Some(JUMP_MFA_REQUIRED_MARKER),
            MfaRefusal::TargetNotSupported => None,
        }
    }
}

/// A slot that keeps the last request a jump server could not be answered for.
#[derive(Clone, Debug, Default)]
pub struct CapturedMfaRequest {
    inner: Option<KeyboardInteractiveRequest>,
}

impl CapturedMfaRequest {
    pub closed spec fn spec_inner(&self) -> Option<KeyboardInteractiveRequest> {
        self.inner
    }

    /// An empty slot.
    pub fn new() -> (c: Self)
        ensures
            c.spec_inner() is None,
    {
        CapturedMfaRequest { inner: None }
    }

    /// Takes the captured request out of the slot.
    pub fn take(&mut self) -> (r: Option<KeyboardInteractiveRequest>)
        ensures
            r == old(self).spec_inner(),
            final(self).spec_inner() is None,
    {
        let mut out = None;
        std::mem::swap(&mut out, &mut self.inner);
        out
    }

    fn store(&mut self, request: KeyboardInteractiveRequest)
        ensures
            final(self).spec_inner() == Some(request),
    {
        self.inner = Some(request);
    }
}

/// Answers jump server questions with the answers given in the form.
pub struct JumpServerMfaResponder {
    responses: Vec<String>,
    captured: CapturedMfaRequest,
}

impl JumpServerMfaResponder {
    pub closed spec fn spec_responses(&self) -> Seq<Seq<char>> {
        views(self.responses@)
    }

    pub closed spec fn spec_captured(&self) -> Option<KeyboardInteractiveRequest> {
        self.captured.spec_inner()
    }

    pub fn new(responses: Vec<String>, captured: CapturedMfaRequest) -> (r: Self)
        ensures
            r.spec_responses() == views(responses@),
            r.spec_captured() == captured.spec_inner(),
    {
        JumpServerMfaResponder { responses, captured }
    }

    /// Answers `request`: a target server is refused; a jump server gets the form's
    /// answers when they are complete, otherwise the request is captured for the form
    /// and the jump-MFA-required error is returned.
    pub fn respond(&mut self, request: KeyboardInteractiveRequest) -> (r: Result<Vec<String>, MfaRefusal>)
        ensures
            final(self).spec_responses() == old(self).spec_responses(),
            request.target != KeyboardInteractiveTarget::JumpServer ==> (r == Err::<Vec<String>, MfaRefusal>(
                MfaRefusal::TargetNotSupported,
            ) && final(self).spec_captured() == old(self).spec_captured()),
            request.target == KeyboardInteractiveTarget::JumpServer && responses_complete(
                request.prompts@.len(),
                old(self).spec_responses(),
            ) ==> ((r matches Ok(v) && views(v@) == old(self).spec_responses())
                && final(self).spec_captured() == old(self).spec_captured()),
            request.target == KeyboardInteractiveTarget::JumpServer && !responses_complete(
                request.prompts@.len(),
                old(self).spec_responses(),
            ) ==> (r == Err::<Vec<String>, MfaRefusal>(MfaRefusal::JumpMfaRequired)
                && final(self).spec_captured() == Some(request)),
    {
        if request.target != KeyboardInteractiveTarget::JumpServer {
            return Err(MfaRefusal::TargetNotSupported);
        }
        if mfa_responses_are_complete(request.prompts.as_slice(), self.responses.as_slice()) {
            let mut out: Vec<String> = Vec::new();
            let mut i: usize = 0;
            while i < self.responses.len()
                invariant
                    i <= self.responses@.len(),
                    views(out@) == views(self.responses@).subrange(0, i as int),
                decreases self.responses@.len() - i,
            {
                let ghost before = out@;
                out.push(self.responses[i].clone());
                assert(views(out@) =~= views(before).push(self.responses@[i as int]@));
                assert(views(out@) =~= views(self.responses@).subrange(0, i + 1));
                i += 1;
            }
            assert(views(self.responses@).subrange(0, i as int) =~= views(self.responses@));
            return Ok(out);
        }
        self.captured.store(request);
        Err(MfaRefusal::JumpMfaRequired)
    }

    /// Takes the request captured by the last unanswered jump server question.
    pub fn take_captured(&mut self) -> (r: Option<KeyboardInteractiveRequest>)
        ensures
            r == old(self).spec_captured(),
            final(self).spec_captured() is None,
            final(self).spec_responses() == old(self).spec_responses(),
    {
        self.captured.take()
    }
}

/// The error of an unanswered jump server request is recognized as such.
pub proof fn lemma_jump_mfa_marker_recognized()
    ensures
        contains(JUMP_MFA_REQUIRED_MARKER@, JUMP_MFA_REQUIRED_MARKER@),
{
    assert(JUMP_MFA_REQUIRED_MARKER@.subrange(0, JUMP_MFA_REQUIRED_MARKER@.len() as int) =~= JUMP_MFA_REQUIRED_MARKER@);
    assert(crate::text::occurs_at(JUMP_MFA_REQUIRED_MARKER@, JUMP_MFA_REQUIRED_MARKER@, 0));
}

} // verus!
