use luciole::commands::TextActionRequest;
use luciole::llm::{build_system_prompt, build_user_prompt, response_text, system_prompt_base, PromptError};

fn req(action: &str, text: &str, lang: Option<&str>, tone: Option<&str>) -> TextActionRequest {
    TextActionRequest {
        action: action.to_string(),
        text: text.to_string(),
        target_language: lang.map(|s| s.to_string()),
        tone: tone.map(|s| s.to_string()),
    }
}

#[test]
fn system_prompts() {
    assert_eq!(
        build_system_prompt("correct", "").unwrap(),
        "Tu es un correcteur de français. Corrige les fautes d'orthographe, de grammaire et de ponctuation sans modifier le sens ni le style. Réponds uniquement avec le texte corrigé, sans préambule."
    );
    let with = build_system_prompt("translate", "Glossaire :\n- A = B\n").unwrap();
    assert!(with.starts_with("Tu es un traducteur professionnel."));
    assert!(with.ends_with("traduction.\n\nGlossaire :\n- A = B\n"));
    assert!(system_prompt_base("rephrase").unwrap().contains("(formel ou informel)"));
    assert!(system_prompt_base("clean-dictation").unwrap().starts_with("Tu reçois une transcription vocale brute."));
    match build_system_prompt("summarize", "x") {
        Err(PromptError::UnknownAction(a)) => assert_eq!(a, "summarize"),
        Ok(_) => panic!("unknown action accepted"),
    }
}

#[test]
fn user_prompts() {
    assert_eq!(build_user_prompt(&req("translate", "Bonjour", None, None)), "Langue cible : en\n\nTexte :\nBonjour");
    assert_eq!(build_user_prompt(&req("translate", "Bonjour", Some("de"), None)), "Langue cible : de\n\nTexte :\nBonjour");
    assert_eq!(build_user_prompt(&req("rephrase", "Salut", None, None)), "Ton : formel\n\nTexte :\nSalut");
    assert_eq!(build_user_prompt(&req("rephrase", "Salut", None, Some("informel"))), "Ton : informel\n\nTexte :\nSalut");
    assert_eq!(build_user_prompt(&req("correct", "txt", Some("de"), Some("x"))), "txt");
}

#[test]
fn replies_are_trimmed() {
    assert_eq!(response_text("\n  Texte corrigé.  \n"), "Texte corrigé.");
    assert_eq!(response_text("\u{a0}\u{3000}x\u{2028}"), "x");
}
