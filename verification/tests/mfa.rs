use onetcli::mfa::{
    form_mfa_request_from_keyboard_interactive, is_jump_mfa_required_error,
    mfa_responses_are_complete, CapturedMfaRequest, FormMfaPrompt, JumpServerMfaResponder,
    KeyboardInteractivePrompt, KeyboardInteractiveRequest, KeyboardInteractiveTarget,
    MfaRefusal, JUMP_MFA_REQUIRED_MARKER,
};

fn prompt(label: &str) -> KeyboardInteractivePrompt {
    KeyboardInteractivePrompt {
        prompt: label.to_string(),
        echo: false,
    }
}

#[test]
fn mfa_responses_require_one_non_empty_value_per_prompt() {
    let prompts = vec![prompt("Code:"), prompt("Backup:")];

    assert!(mfa_responses_are_complete(
        &prompts,
        &["123456".to_string(), "abcdef".to_string()]
    ));
    assert!(!mfa_responses_are_complete(
        &prompts,
        &["123456".to_string()]
    ));
    assert!(!mfa_responses_are_complete(
        &prompts,
        &["123456".to_string(), " ".to_string()]
    ));
}

#[test]
fn form_mfa_request_only_accepts_jump_server_prompts() {
    let request = KeyboardInteractiveRequest {
        target: KeyboardInteractiveTarget::JumpServer,
        name: "Verification".to_string(),
        instructions: "Enter code".to_string(),
        prompts: vec![prompt("Code:")],
    };

    let form_request = form_mfa_request_from_keyboard_interactive(&request).unwrap();

    assert_eq!("Verification", form_request.name);
    assert_eq!("Enter code", form_request.instructions);
    assert_eq!(
        vec![FormMfaPrompt {
            prompt: "Code:".to_string(),
            echo: false,
        }],
        form_request.prompts
    );

    let target_request = KeyboardInteractiveRequest {
        target: KeyboardInteractiveTarget::TargetServer,
        ..request
    };
    assert!(form_mfa_request_from_keyboard_interactive(&target_request).is_none());
}

#[test]
fn form_mfa_request_needs_at_least_one_prompt() {
    let request = KeyboardInteractiveRequest {
        target: KeyboardInteractiveTarget::JumpServer,
        name: String::new(),
        instructions: String::new(),
        prompts: vec![],
    };
    assert!(form_mfa_request_from_keyboard_interactive(&request).is_none());
}

#[test]
fn responder_answers_jump_server_or_captures_the_request() {
    let request = KeyboardInteractiveRequest {
        target: KeyboardInteractiveTarget::JumpServer,
        name: "Verification".to_string(),
        instructions: String::new(),
        prompts: vec![prompt("Code:")],
    };

    let mut answered = JumpServerMfaResponder::new(vec!["123456".to_string()], CapturedMfaRequest::new());
    assert_eq!(answered.respond(request.clone()), Ok(vec!["123456".to_string()]));
    assert!(answered.take_captured().is_none());

    let mut unanswered = JumpServerMfaResponder::new(vec![], CapturedMfaRequest::new());
    assert_eq!(unanswered.respond(request.clone()), Err(MfaRefusal::JumpMfaRequired));
    assert_eq!(unanswered.take_captured(), Some(request.clone()));
    assert!(unanswered.take_captured().is_none());

    let target = KeyboardInteractiveRequest {
        target: KeyboardInteractiveTarget::TargetServer,
        ..request
    };
    assert_eq!(answered.respond(target), Err(MfaRefusal::TargetNotSupported));

    let marker = MfaRefusal::JumpMfaRequired.marker().unwrap();
    assert!(is_jump_mfa_required_error(&format!("auth failed: {marker}")));
    assert!(is_jump_mfa_required_error(JUMP_MFA_REQUIRED_MARKER));
    assert!(!is_jump_mfa_required_error("auth failed"));
    assert!(MfaRefusal::TargetNotSupported.marker().is_none());
}
