//! The provider-independent part of the provider adapters and of the
//! command line: which provider to use, how a conversation is laid out for
//! the Anthropic API, and which part of a reply is the answer. The HTTP
//! calls themselves happen outside this library.

use vstd::prelude::*;

use crate::rlm::{Message, MessageView, Role};

verus! {

/// The provider a run talks to.
#[derive(Debug, Clone, Copy, PartialEq, Eq, Structural)]
pub enum ProviderKind {
    OpenAi,
    Anthropic,
}

/// The provider named by the command-line flag, else by the environment,
/// else OpenAI; any name other than `anthropic` means OpenAI.
pub open spec fn spec_choose_provider(flag: Option<Seq<char>>, env: Option<Seq<char>>) -> ProviderKind {
    let name = match flag {
        Some(f) => f,
        None => match env {
            Some(e) => e,
            None => "openai"@,
        },
    };
    if name == "anthropic"@ {
        ProviderKind::Anthropic
    } else {
        ProviderKind::OpenAi
    }
}

/// Chooses the provider from the command-line flag and the environment.
pub fn choose_provider(flag: Option<String>, env: Option<String>) -> (k: ProviderKind)
    ensures
        k == spec_choose_provider(flag.deep_view(), env.deep_view()),
{
    let name = match flag {
        Some(f) => f,
        None => match env {
            Some(e) => e,
            None => String::from_str("openai"),
        },
    };
    let anthropic = String::from_str("anthropic");
    if name == anthropic {
        ProviderKind::Anthropic
    } else {
        ProviderKind::OpenAi
    }
}

/// The model named by the environment, else the provider's default.
pub fn model_or_default(env: Option<String>, default: &str) -> (m: String)
    ensures
        m@ == match env.deep_view() {
            Some(e) => e,
            None => default@,
        },
{
    match env {
        Some(e) => e,
        None => String::from_str(default),
    }
}

/// Where the context of a one-shot query comes from.
pub enum ContextSource<F> {
    /// This text, given on the command line.
    Inline(String),
    /// The file at this path.
    File(F),
    /// Nothing: the context is empty.
    Empty,
}

/// The inline context when there is one, else the context file when there
/// is one, else an empty context.
pub fn context_source<F>(inline: Option<String>, file: Option<F>) -> (s: ContextSource<F>)
    ensures
        match s {
            ContextSource::Inline(c) => inline.deep_view() == Some(c@),
            ContextSource::File(p) => inline is None && file == Some(p),
            ContextSource::Empty => inline is None && file is None,
        },
{
    match inline {
        Some(c) => ContextSource::Inline(c),
        None => match file {
            Some(p) => ContextSource::File(p),
            None => ContextSource::Empty,
        },
    }
}

// ---------------------------------------------------------------------------
// Anthropic
// ---------------------------------------------------------------------------

/// The content of the first system message, if any.
pub open spec fn first_system(msgs: Seq<MessageView>) -> Option<Seq<char>>
    decreases msgs.len(),
{
    if msgs.len() == 0 {
        None
    } else if msgs[0].role == Role::System {
        Some(msgs[0].content)
    } else {
        first_system(msgs.drop_first())
    }
}

/// The Anthropic role of a non-system message.
pub open spec fn anthropic_role(r: Role) -> Seq<char> {
    match r {
        Role::Assistant => "assistant"@,
        _ => "user"@,
    }
}

/// The non-system messages, in order, as Anthropic (role, content) pairs.
pub open spec fn anthropic_turns(msgs: Seq<MessageView>) -> Seq<(Seq<char>, Seq<char>)>
    decreases msgs.len(),
{
    if msgs.len() == 0 {
        Seq::empty()
    } else {
        let rest = anthropic_turns(msgs.drop_last());
        let m = msgs.last();
        if m.role == Role::System {
            rest
        } else {
            rest.push((anthropic_role(m.role), m.content))
        }
    }
}

/// An Anthropic request's conversation: the system prompt, and the turns.
pub struct AnthropicConversation {
    pub system: Option<String>,
    pub turns: Vec<(&'static str, String)>,
}

/// Lays out a conversation for the Anthropic messages API: the first system
/// message becomes the system prompt, and the other messages the turns.
pub fn anthropic_conversation(messages: &Vec<Message>) -> (c: AnthropicConversation)
    ensures
        c.system.deep_view() == first_system(messages@.map_values(|m: Message| m@)),
        c.turns@.map_values(|t: (&str, String)| (t.0@, t.1@)) == anthropic_turns(
            messages@.map_values(|m: Message| m@),
        ),
{
    let ghost views = messages@.map_values(|m: Message| m@);
    let mut system: Option<String> = None;
    let mut turns: Vec<(&'static str, String)> = Vec::new();
    let mut i: usize = 0;
    assert(views.skip(0) =~= views);
    while i < messages.len()
        invariant
            i <= messages.len(),
            views == messages@.map_values(|m: Message| m@),
            system is None ==> first_system(views) == first_system(views.skip(i as int)),
            system is Some ==> first_system(views) == system.deep_view(),
            turns@.map_values(|t: (&str, String)| (t.0@, t.1@)) == anthropic_turns(
                views.take(i as int),
            ),
        decreases messages.len() - i,
    {
        let m = &messages[i];
        assert(views[i as int] == m@);
        assert(views.skip(i as int).drop_first() =~= views.skip(i + 1));
        assert(views.take(i + 1).drop_last() =~= views.take(i as int));
        let ghost before = turns@;
        match m.role {
            Role::System => {
                if system.is_none() {
                    system = Some(m.content.clone());
                }
            },
            Role::User => {
                turns.push(("user", m.content.clone()));
                assert(turns@.map_values(|t: (&str, String)| (t.0@, t.1@)) =~= before.map_values(
                    |t: (&str, String)| (t.0@, t.1@),
                ).push(("user"@, m.content@)));
            },
            Role::Assistant => {
                turns.push(("assistant", m.content.clone()));
                assert(turns@.map_values(|t: (&str, String)| (t.0@, t.1@)) =~= before.map_values(
                    |t: (&str, String)| (t.0@, t.1@),
                ).push(("assistant"@, m.content@)));
            },
        }
        i = i + 1;
    }
    assert(views.take(i as int) =~= views);
    assert(views.skip(i as int) =~= Seq::<MessageView>::empty());
    AnthropicConversation { system, turns }
}

/// The answer in an Anthropic reply: the text of its first content block.
pub fn anthropic_answer(texts: Vec<String>) -> (r: Result<String, String>)
    ensures
        match r {
            Ok(a) => texts@.len() > 0 && a == texts@[0],
            Err(e) => texts@.len() == 0 && e@ == "Anthropic returned no content"@,
        },
{
    let mut texts = texts;
    if texts.len() == 0 {
        return Err(String::from_str("Anthropic returned no content"));
    }
    Ok(texts.swap_remove(0))
}

/// The answer in an OpenAI reply: the content of its first choice.
pub fn openai_answer(contents: Vec<Option<String>>) -> (r: Result<String, String>)
    ensures
        match r {
            Ok(a) => contents@.len() > 0 && contents@[0] == Some(a),
            Err(e) => (contents@.len() == 0 || contents@[0] is None) && e@
                == "OpenAI returned no content"@,
        },
{
    let mut contents = contents;
    if contents.len() == 0 {
        return Err(String::from_str("OpenAI returned no content"));
    }
    match contents.swap_remove(0) {
        Some(a) => Ok(a),
        None => Err(String::from_str("OpenAI returned no content")),
    }
}

} // verus!
