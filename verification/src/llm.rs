//! Prompts for the local language model (Gemma through Ollama).
//!
//! The HTTP exchange with Ollama is left to the caller; this module builds
//! the system and user prompts of each text action and reads the reply.

use vstd::prelude::*;
use vstd::string::*;
use crate::commands::TextActionRequest;
use crate::text::{same_text, owned, trim, trim_spec};

verus! {

/// The instructions for the action `correct`.
pub open spec fn correct_prompt() -> Seq<char> {
    "Tu es un correcteur de français. Corrige les fautes d'orthographe, \
            de grammaire et de ponctuation sans modifier le sens ni le style. \
            Réponds uniquement avec le texte corrigé, sans préambule."@
}

/// The instructions for the action `translate`.
pub open spec fn translate_prompt() -> Seq<char> {
    "Tu es un traducteur professionnel. Traduis le texte vers la langue \
            demandée en conservant le ton et le registre. Réponds uniquement avec la traduction."@
}

/// The instructions for the action `rephrase`.
pub open spec fn rephrase_prompt() -> Seq<char> {
    "Tu es un rédacteur. Reformule le texte dans le ton demandé \
            (formel ou informel) en conservant le sens. Réponds uniquement avec la reformulation."@
}

/// The instructions for the action `clean-dictation`.
pub open spec fn clean_dictation_prompt() -> Seq<char> {
    "Tu reçois une transcription vocale brute. Corrige la ponctuation \
            et les fautes manifestes sans ajouter de contenu. Réponds uniquement avec le texte nettoyé."@
}

/// The instructions for an action; `None` for an unknown action.
pub open spec fn system_prompt_base_spec(action: Seq<char>) -> Option<Seq<char>> {
    if action == "correct"@ {
        Some(correct_prompt())
    } else if action == "translate"@ {
        Some(translate_prompt())
    } else if action == "rephrase"@ {
        Some(rephrase_prompt())
    } else if action == "clean-dictation"@ {
        Some(clean_dictation_prompt())
    } else {
        None
    }
}

/// A text action that the model cannot run.
#[derive(Debug)]
pub enum PromptError {
    /// The action is none of `correct`, `translate`, `rephrase`,
    /// `clean-dictation`.
    UnknownAction(String),
}

/// The instructions for an action.
pub fn system_prompt_base(action: &str) -> (r: Option<&'static str>)
    ensures
        match r {
            Some(p) => system_prompt_base_spec(action@) == Some(p@),
            None => system_prompt_base_spec(action@) is None,
        },
{
    if same_text(action, "correct") {
        Some(
            "Tu es un correcteur de français. Corrige les fautes d'orthographe, \
            de grammaire et de ponctuation sans modifier le sens ni le style. \
            Réponds uniquement avec le texte corrigé, sans préambule.",
        )
    } else if same_text(action, "translate") {
        Some(
            "Tu es un traducteur professionnel. Traduis le texte vers la langue \
            demandée en conservant le ton et le registre. Réponds uniquement avec la traduction.",
        )
    } else if same_text(action, "rephrase") {
        Some(
            "Tu es un rédacteur. Reformule le texte dans le ton demandé \
            (formel ou informel) en conservant le sens. Réponds uniquement avec la reformulation.",
        )
    } else if same_text(action, "clean-dictation") {
        Some(
            "Tu reçois une transcription vocale brute. Corrige la ponctuation \
            et les fautes manifestes sans ajouter de contenu. Réponds uniquement avec le texte nettoyé.",
        )
    } else {
        None
    }
}

/// The system prompt: the action's instructions, then, when the glossary
/// fragment is not empty, a blank line and the fragment.
pub open spec fn system_prompt_spec(base: Seq<char>, glossary_fragment: Seq<char>) -> Seq<char> {
    if glossary_fragment.len() == 0 {
        base
    } else {
        base + "\n\n"@ + glossary_fragment
    }
}

/// The system prompt for an action, with the glossary fragment appended; an
/// error for an unknown action.
pub fn build_system_prompt(action: &str, glossary_fragment: &str) -> (r: Result<String, PromptError>)
    ensures
        match r {
            Ok(p) => system_prompt_base_spec(action@) matches Some(b) && p@ == system_prompt_spec(
                b,
                glossary_fragment@,
            ),
            Err(PromptError::UnknownAction(a)) => system_prompt_base_spec(action@) is None && a@
                == action@,
        },
{
    match system_prompt_base(action) {
        None => Err(PromptError::UnknownAction(owned(action))),
        Some(base) => {
            let mut out = owned(base);
            if crate::text::to_chars(glossary_fragment).len() > 0 {
                out.append("\n\n");
                out.append(glossary_fragment);
            }
            Ok(out)
        },
    }
}

/// The text of an optional field, or `default` when it is absent.
pub open spec fn field_or(o: Option<String>, default: Seq<char>) -> Seq<char> {
    match o {
        Some(s) => s@,
        None => default,
    }
}

/// The user prompt: for `translate`, the target language (English when
/// none is given) and the text; for `rephrase`, the tone (formal when none
/// is given) and the text; for any other action, the text alone.
pub open spec fn user_prompt_spec(req: TextActionRequest) -> Seq<char> {
    if req.action@ == "translate"@ {
        "Langue cible : "@ + field_or(req.target_language, "en"@) + "\n\nTexte :\n"@ + req.text@
    } else if req.action@ == "rephrase"@ {
        "Ton : "@ + field_or(req.tone, "formel"@) + "\n\nTexte :\n"@ + req.text@
    } else {
        req.text@
    }
}

/// The user prompt for a request.
pub fn build_user_prompt(req: &TextActionRequest) -> (r: String)
    ensures
        r@ == user_prompt_spec(*req),
{
    if same_text(req.action.as_str(), "translate") {
        let mut out = owned("Langue cible : ");
        match &req.target_language {
            Some(l) => out.append(l.as_str()),
            None => out.append("en"),
        }
        out.append("\n\nTexte :\n");
        out.append(req.text.as_str());
        out
    } else if same_text(req.action.as_str(), "rephrase") {
        let mut out = owned("Ton : ");
        match &req.tone {
            Some(t) => out.append(t.as_str()),
            None => out.append("formel"),
        }
        out.append("\n\nTexte :\n");
        out.append(req.text.as_str());
        out
    } else {
        req.text.clone()
    }
}

/// The model's answer as returned to the user: the reply, trimmed.
pub fn response_text(reply: &str) -> (r: String)
    ensures
        r@ == trim_spec(reply@),
{
    trim(reply)
}

/// The user prompt always ends with the request's text, whatever the action;
/// for any action other than `translate` and `rephrase` it is that text
/// alone.
pub proof fn law_user_prompt_ends_with_text(req: TextActionRequest)
    ensures
        user_prompt_spec(req).len() >= req.text@.len(),
        user_prompt_spec(req).subrange(
            user_prompt_spec(req).len() - req.text@.len(),
            user_prompt_spec(req).len() as int,
        ) == req.text@,
        req.action@ != "translate"@ && req.action@ != "rephrase"@ ==> user_prompt_spec(req)
            == req.text@,
{
    let u = user_prompt_spec(req);
    let t = req.text@;
    if req.action@ == "translate"@ || req.action@ == "rephrase"@ {
        let p = u.subrange(0, u.len() - t.len());
        assert(u == p + t) by {
            if req.action@ == "translate"@ {
                let q = "Langue cible : "@ + field_or(req.target_language, "en"@)
                    + "\n\nTexte :\n"@;
                assert(u == q + t);
            } else {
                let q = "Ton : "@ + field_or(req.tone, "formel"@) + "\n\nTexte :\n"@;
                assert(u == q + t);
            }
        }
        assert(u.subrange(u.len() - t.len(), u.len() as int) =~= t);
    } else {
        assert(u.subrange(u.len() - t.len(), u.len() as int) =~= t);
    }
}

} // verus!
