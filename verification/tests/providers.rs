use mlrs::providers::{
    anthropic_answer, anthropic_conversation, choose_provider, context_source, model_or_default,
    openai_answer, ContextSource, ProviderKind,
};
use mlrs::{Message, Role};

#[test]
fn provider_choice() {
    assert_eq!(choose_provider(None, None), ProviderKind::OpenAi);
    assert_eq!(choose_provider(Some("anthropic".into()), None), ProviderKind::Anthropic);
    assert_eq!(choose_provider(None, Some("anthropic".into())), ProviderKind::Anthropic);
    assert_eq!(choose_provider(Some("openai".into()), Some("anthropic".into())), ProviderKind::OpenAi);
    assert_eq!(choose_provider(Some("other".into()), None), ProviderKind::OpenAi);
}

#[test]
fn model_defaults() {
    assert_eq!(model_or_default(None, "gpt-4o"), "gpt-4o");
    assert_eq!(model_or_default(Some("m".into()), "gpt-4o"), "m");
}

#[test]
fn context_sources() {
    assert!(matches!(context_source(Some("c".into()), Some("f".to_string())), ContextSource::Inline(ref c) if c == "c"));
    assert!(matches!(context_source(None, Some("f".to_string())), ContextSource::File(ref p) if p == "f"));
    assert!(matches!(context_source(None, None::<std::path::PathBuf>), ContextSource::Empty));
    let path = std::path::PathBuf::from("ctx.txt");
    assert!(matches!(context_source(None, Some(path.clone())), ContextSource::File(ref p) if *p == path));
}

#[test]
fn anthropic_layout() {
    let msgs = vec![
        Message { role: Role::User, content: "u0".into() },
        Message { role: Role::System, content: "sys".into() },
        Message { role: Role::Assistant, content: "a1".into() },
        Message { role: Role::System, content: "sys2".into() },
        Message { role: Role::User, content: "u2".into() },
    ];
    let c = anthropic_conversation(&msgs);
    assert_eq!(c.system.as_deref(), Some("sys"));
    assert_eq!(
        c.turns,
        vec![("user", "u0".to_string()), ("assistant", "a1".to_string()), ("user", "u2".to_string())]
    );
    let empty = anthropic_conversation(&vec![]);
    assert!(empty.system.is_none() && empty.turns.is_empty());
}

#[test]
fn answers_are_the_first_content() {
    assert_eq!(anthropic_answer(vec!["a".into(), "b".into()]).unwrap(), "a");
    assert_eq!(anthropic_answer(vec![]).unwrap_err(), "Anthropic returned no content");
    assert_eq!(openai_answer(vec![Some("x".into()), Some("y".into())]).unwrap(), "x");
    assert_eq!(openai_answer(vec![None, Some("y".into())]).unwrap_err(), "OpenAI returned no content");
    assert_eq!(openai_answer(vec![]).unwrap_err(), "OpenAI returned no content");
}
