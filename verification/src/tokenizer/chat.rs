//! Chat messages as one prompt.

use crate::text::{chars_of, contains_str, matches_at, occurs_at, push_char, str_eq};
use vstd::prelude::*;

verus! {

/// The messages of a chat: role and content of each.
pub open spec fn message_views(messages: Seq<(&str, &str)>) -> Seq<(Seq<char>, Seq<char>)> {
    Seq::new(messages.len(), |i: int| (messages[i].0@, messages[i].1@))
}

/// One message between markers.
pub open spec fn chatml_message(role: Seq<char>, content: Seq<char>) -> Seq<char> {
    "<|im_start|>"@ + role + seq!['\n'] + content + "<|im_end|>\n"@
}

/// Messages between markers.
pub open spec fn chatml_text(messages: Seq<(Seq<char>, Seq<char>)>) -> Seq<char>
    decreases messages.len(),
{
    if messages.len() == 0 {
        seq![]
    } else {
        chatml_text(messages.drop_last()) + chatml_message(messages.last().0, messages.last().1)
    }
}

/// Messages one to a line, each behind its role.
pub open spec fn plain_text(messages: Seq<(Seq<char>, Seq<char>)>) -> Seq<char>
    decreases messages.len(),
{
    if messages.len() == 0 {
        seq![]
    } else {
        plain_text(messages.drop_last()) + messages.last().0 + ": "@ + messages.last().1 + seq![
            '\n',
        ]
    }
}

/// Instructions and answers. Gives the text and the system message that waits for the
/// next instruction.
pub open spec fn inst_text(messages: Seq<(Seq<char>, Seq<char>)>) -> (Seq<char>, Option<Seq<char>>)
    decreases messages.len(),
{
    if messages.len() == 0 {
        (seq![], None)
    } else {
        let (text, system) = inst_text(messages.drop_last());
        let (role, content) = messages.last();
        if role == "system"@ {
            (text, Some(content))
        } else if role == "user"@ {
            let lead = match system {
                Some(s) => "<<SYS>>\n"@ + s + "\n<</SYS>>\n\n"@,
                None => seq![],
            };
            (text + "<s>[INST] "@ + lead + content + " [/INST]"@, None)
        } else if role == "assistant"@ {
            (text + seq![' '] + content + " </s>"@, system)
        } else {
            (text + seq![' '] + content, system)
        }
    }
}

/// A text ends in another.
pub open spec fn ends_in(s: Seq<char>, end: Seq<char>) -> bool {
    occurs_at(s, end, s.len() - end.len())
}

/// The prompt of a chat: between markers or as instructions where the template has
/// the marks of these, else one message to a line.
pub open spec fn chat_text(
    template: Option<Seq<char>>,
    messages: Seq<(Seq<char>, Seq<char>)>,
    prompt: bool,
) -> Seq<char> {
    if template is Some && crate::text::contains_text(template->0, "<|im_start|>"@) {
        chatml_text(messages) + if prompt {
            "<|im_start|>assistant\n"@
        } else {
            seq![]
        }
    } else if template is Some && crate::text::contains_text(template->0, "[/INST]"@) {
        let text = inst_text(messages).0;
        text + if prompt && !ends_in(text, "[/INST]"@) {
            " [INST] [/INST]"@
        } else {
            seq![]
        }
    } else {
        plain_text(messages) + if prompt {
            "assistant: "@
        } else {
            seq![]
        }
    }
}

fn render_chatml(messages: &[(&str, &str)], prompt: bool) -> (r: String)
    ensures
        r@ == chatml_text(message_views(messages@)) + if prompt {
            "<|im_start|>assistant\n"@
        } else {
            seq![]
        },
{
    let ghost ms = message_views(messages@);
    let mut out = String::new();
    let mut i: usize = 0;
    while i < messages.len()
        invariant
            i <= messages@.len(),
            ms == message_views(messages@),
            out@ == chatml_text(ms.take(i as int)),
        decreases messages@.len() - i,
    {
        let ghost before = out@;
        let (role, content) = messages[i];
        out.append("<|im_start|>");
        out.append(role);
        push_char(&mut out, '\n');
        out.append(content);
        out.append("<|im_end|>\n");
        assert(ms.take(i + 1).drop_last() =~= ms.take(i as int));
        assert(out@ =~= before + chatml_message(role@, content@));
        i += 1;
    }
    assert(ms.take(i as int) =~= ms);
    if prompt {
        out.append("<|im_start|>assistant\n");
    }
    assert(out@ =~= chatml_text(ms) + if prompt {
        "<|im_start|>assistant\n"@
    } else {
        seq![]
    });
    out
}

fn render_plain_chat(messages: &[(&str, &str)], prompt: bool) -> (r: String)
    ensures
        r@ == plain_text(message_views(messages@)) + if prompt {
            "assistant: "@
        } else {
            seq![]
        },
{
    let ghost ms = message_views(messages@);
    let mut out = String::new();
    let mut i: usize = 0;
    while i < messages.len()
        invariant
            i <= messages@.len(),
            ms == message_views(messages@),
            out@ == plain_text(ms.take(i as int)),
        decreases messages@.len() - i,
    {
        let ghost before = out@;
        let (role, content) = messages[i];
        out.append(role);
        out.append(": ");
        out.append(content);
        push_char(&mut out, '\n');
        assert(ms.take(i + 1).drop_last() =~= ms.take(i as int));
        assert(out@ =~= before + role@ + ": "@ + content@ + seq!['\n']);
        i += 1;
    }
    assert(ms.take(i as int) =~= ms);
    if prompt {
        out.append("assistant: ");
    }
    assert(out@ =~= plain_text(ms) + if prompt {
        "assistant: "@
    } else {
        seq![]
    });
    out
}

fn ends_with(s: &str, end: &str) -> (r: bool)
    ensures
        r == ends_in(s@, end@),
{
    let a = chars_of(s);
    let b = chars_of(end);
    if a.len() < b.len() {
        return false;
    }
    matches_at(&a, &b, a.len() - b.len())
}

fn render_llama_inst_chat(messages: &[(&str, &str)], prompt: bool) -> (r: String)
    ensures
        ({
            let text = inst_text(message_views(messages@)).0;
            r@ == text + if prompt && !ends_in(text, "[/INST]"@) {
                " [INST] [/INST]"@
            } else {
                seq![]
            }
        }),
{
    let ghost ms = message_views(messages@);
    let mut out = String::new();
    let mut system: Option<&str> = None;
    let mut i: usize = 0;
    while i < messages.len()
        invariant
            i <= messages@.len(),
            ms == message_views(messages@),
            out@ == inst_text(ms.take(i as int)).0,
            match system {
                Some(s) => inst_text(ms.take(i as int)).1 == Some(s@),
                None => inst_text(ms.take(i as int)).1 is None,
            },
        decreases messages@.len() - i,
    {
        let ghost before = out@;
        let (role, content) = messages[i];
        assert(ms.take(i + 1).drop_last() =~= ms.take(i as int));
        assert(ms.take(i + 1).last() == (role@, content@));
        if str_eq(role, "system") {
            system = Some(content);
        } else if str_eq(role, "user") {
            out.append("<s>[INST] ");
            match system {
                Some(s) => {
                    out.append("<<SYS>>\n");
                    out.append(s);
                    out.append("\n<</SYS>>\n\n");
                    out.append(content);
                    out.append(" [/INST]");
                    assert(out@ =~= before + "<s>[INST] "@ + ("<<SYS>>\n"@ + s@
                        + "\n<</SYS>>\n\n"@) + content@ + " [/INST]"@);
                },
                None => {
                    out.append(content);
                    out.append(" [/INST]");
                    assert(out@ =~= before + "<s>[INST] "@ + seq![] + content@ + " [/INST]"@);
                },
            }
            system = None;
        } else if str_eq(role, "assistant") {
            push_char(&mut out, ' ');
            out.append(content);
            out.append(" </s>");
            assert(out@ =~= before + seq![' '] + content@ + " </s>"@);
        } else {
            push_char(&mut out, ' ');
            out.append(content);
            assert(out@ =~= before + seq![' '] + content@);
        }
        i += 1;
    }
    assert(ms.take(i as int) =~= ms);
    let ghost text = out@;
    if prompt && !ends_with(out.as_str(), "[/INST]") {
        out.append(" [INST] [/INST]");
    }
    assert(out@ =~= text + if prompt && !ends_in(text, "[/INST]"@) {
        " [INST] [/INST]"@
    } else {
        seq![]
    });
    out
}

/// The prompt of a chat under a template.
pub fn render_chat(template: Option<&str>, messages: &[(&str, &str)], add_generation_prompt: bool) -> (r:
    String)
    ensures
        r@ == chat_text(
            match template {
                Some(t) => Some(t@),
                None => None,
            },
            message_views(messages@),
            add_generation_prompt,
        ),
{
    match template {
        Some(t) => {
            if contains_str(t, "<|im_start|>") {
                return render_chatml(messages, add_generation_prompt);
            }
            if contains_str(t, "[/INST]") {
                return render_llama_inst_chat(messages, add_generation_prompt);
            }
        },
        None => {},
    }
    render_plain_chat(messages, add_generation_prompt)
}

} // verus!
