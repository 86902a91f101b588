//! What prompts are made of.

use crate::text::{contains_text, occurs_at};
use crate::tokenizer::chat::{chat_text, chatml_text, ends_in, inst_text, plain_text};
use vstd::prelude::*;

verus! {

/// A text ends in the mark of an instruction's end.
pub open spec fn asks(s: Seq<char>) -> bool {
    exists|front: Seq<char>| s == #[trigger] (front + "[/INST]"@)
}

proof fn lemma_chatml_concat(a: Seq<(Seq<char>, Seq<char>)>, b: Seq<(Seq<char>, Seq<char>)>)
    ensures
        chatml_text(a + b) == chatml_text(a) + chatml_text(b),
    decreases b.len(),
{
    if b.len() == 0 {
        assert(a + b =~= a);
        assert(chatml_text(a) + chatml_text(b) =~= chatml_text(a));
    } else {
        lemma_chatml_concat(a, b.drop_last());
        assert((a + b).drop_last() =~= a + b.drop_last());
        assert((a + b).last() == b.last());
        assert(chatml_text(a + b) =~= chatml_text(a) + chatml_text(b));
    }
}

proof fn lemma_plain_concat(a: Seq<(Seq<char>, Seq<char>)>, b: Seq<(Seq<char>, Seq<char>)>)
    ensures
        plain_text(a + b) == plain_text(a) + plain_text(b),
    decreases b.len(),
{
    if b.len() == 0 {
        assert(a + b =~= a);
        assert(plain_text(a) + plain_text(b) =~= plain_text(a));
    } else {
        lemma_plain_concat(a, b.drop_last());
        assert((a + b).drop_last() =~= a + b.drop_last());
        assert((a + b).last() == b.last());
        assert(plain_text(a + b) =~= plain_text(a) + plain_text(b));
    }
}

/// Under a template with the marks of message starts, a chat is its messages one behind
/// the other, in their order: the prompt of messages is that of the first of them,
/// without a lead for the answer, and that of the others behind it.
pub proof fn marked_messages_follow_each_other(
    template: Seq<char>,
    a: Seq<(Seq<char>, Seq<char>)>,
    b: Seq<(Seq<char>, Seq<char>)>,
    prompt: bool,
)
    requires
        contains_text(template, "<|im_start|>"@),
    ensures
        chat_text(Some(template), a + b, prompt) == chat_text(Some(template), a, false)
            + chat_text(Some(template), b, prompt),
{
    lemma_chatml_concat(a, b);
    assert(chat_text(Some(template), a + b, prompt) =~= chat_text(Some(template), a, false)
        + chat_text(Some(template), b, prompt));
}

/// Under such a template a message of any role stands between the marks of its start and
/// its end, its content behind its role, and the lead for the answer is the start of a
/// message of the assistant.
pub proof fn marked_message_has_role_and_content(
    template: Seq<char>,
    role: Seq<char>,
    content: Seq<char>,
)
    requires
        contains_text(template, "<|im_start|>"@),
    ensures
        chat_text(Some(template), seq![(role, content)], false) == "<|im_start|>"@ + role + "\n"@
            + content + "<|im_end|>\n"@,
        chat_text(Some(template), seq![], true) == "<|im_start|>assistant\n"@,
        chat_text(Some(template), seq![], false) == Seq::<char>::empty(),
{
    reveal_with_fuel(chatml_text, 2);
    reveal_strlit("\n");
    assert(seq![(role, content)].drop_last() =~= seq![]);
    assert("\n"@ =~= seq!['\n']);
    assert(chat_text(Some(template), seq![(role, content)], false) =~= "<|im_start|>"@ + role
        + "\n"@ + content + "<|im_end|>\n"@);
    assert(chat_text(Some(template), seq![], true) =~= "<|im_start|>assistant\n"@);
    assert(chat_text(Some(template), seq![], false) =~= Seq::<char>::empty());
}

/// The chat has neither the marks of message starts nor those of instructions in its
/// template, or has no template.
pub open spec fn is_plain(template: Option<Seq<char>>) -> bool {
    template matches Some(t) ==> !contains_text(t, "<|im_start|>"@) && !contains_text(
        t,
        "[/INST]"@,
    )
}

/// Without a template, and under one without known marks, messages follow each other in
/// their order.
pub proof fn plain_messages_follow_each_other(
    template: Option<Seq<char>>,
    a: Seq<(Seq<char>, Seq<char>)>,
    b: Seq<(Seq<char>, Seq<char>)>,
    prompt: bool,
)
    requires
        is_plain(template),
    ensures
        chat_text(template, a + b, prompt) == chat_text(template, a, false) + chat_text(
            template,
            b,
            prompt,
        ),
{
    lemma_plain_concat(a, b);
    assert(chat_text(template, a + b, prompt) =~= chat_text(template, a, false) + chat_text(
        template,
        b,
        prompt,
    ));
}

/// Without known marks a message is a line with its role, a colon and its content, and the
/// lead for the answer is the role of the assistant.
pub proof fn plain_message_is_a_line(
    template: Option<Seq<char>>,
    role: Seq<char>,
    content: Seq<char>,
)
    requires
        is_plain(template),
    ensures
        chat_text(template, seq![(role, content)], false) == role + ": "@ + content + "\n"@,
        chat_text(template, seq![], true) == "assistant: "@,
        chat_text(template, seq![], false) == Seq::<char>::empty(),
{
    reveal_with_fuel(plain_text, 2);
    reveal_strlit("\n");
    assert(seq![(role, content)].drop_last() =~= seq![]);
    assert("\n"@ =~= seq!['\n']);
    assert(chat_text(template, seq![(role, content)], false) =~= role + ": "@ + content + "\n"@);
    assert(chat_text(template, seq![], true) =~= "assistant: "@);
    assert(chat_text(template, seq![], false) =~= Seq::<char>::empty());
}

/// The template has the marks of instructions.
pub open spec fn is_inst(template: Seq<char>) -> bool {
    contains_text(template, "[/INST]"@) && !contains_text(template, "<|im_start|>"@)
}

proof fn lemma_roles()
    ensures
        "system"@ != "user"@,
        "system"@ != "assistant"@,
        "user"@ != "assistant"@,
{
    reveal_strlit("system");
    reveal_strlit("user");
    reveal_strlit("assistant");
    assert("system"@.len() == 6 && "user"@.len() == 4 && "assistant"@.len() == 9);
}

proof fn lemma_one_more(ms: Seq<(Seq<char>, Seq<char>)>, role: Seq<char>, content: Seq<char>)
    ensures
        ms.push((role, content)).drop_last() == ms,
        ms.push((role, content)).last() == (role, content),
{
    assert(ms.push((role, content)).drop_last() =~= ms);
}

/// Under a template of instructions, a message of the user that stands first is an
/// instruction with its content.
pub proof fn first_instruction_has_content(template: Seq<char>, content: Seq<char>)
    requires
        is_inst(template),
    ensures
        chat_text(Some(template), seq![("user"@, content)], false) == "<s>[INST] "@ + content
            + " [/INST]"@,
{
    reveal_with_fuel(inst_text, 2);
    lemma_roles();
    assert(seq![("user"@, content)].drop_last() =~= seq![]);
    assert(chat_text(Some(template), seq![("user"@, content)], false) =~= "<s>[INST] "@ + content
        + " [/INST]"@);
}

/// A message of the system adds nothing by itself. The next message of the user has it
/// between marks ahead of its content.
pub proof fn system_message_leads_instruction(
    template: Seq<char>,
    ms: Seq<(Seq<char>, Seq<char>)>,
    system: Seq<char>,
    content: Seq<char>,
)
    requires
        is_inst(template),
    ensures
        chat_text(Some(template), ms.push(("system"@, system)), false) == chat_text(
            Some(template),
            ms,
            false,
        ),
        chat_text(Some(template), ms.push(("system"@, system)).push(("user"@, content)), false)
            == chat_text(Some(template), ms, false) + "<s>[INST] "@ + "<<SYS>>\n"@ + system
            + "\n<</SYS>>\n\n"@ + content + " [/INST]"@,
{
    lemma_roles();
    let with = ms.push(("system"@, system));
    lemma_one_more(ms, "system"@, system);
    lemma_one_more(with, "user"@, content);
    assert(chat_text(Some(template), ms, false) =~= inst_text(ms).0);
    assert(chat_text(Some(template), with, false) =~= inst_text(with).0);
    assert(chat_text(Some(template), with.push(("user"@, content)), false) =~= chat_text(
        Some(template),
        ms,
        false,
    ) + "<s>[INST] "@ + "<<SYS>>\n"@ + system + "\n<</SYS>>\n\n"@ + content + " [/INST]"@);
}

/// An instruction uses up the message of the system: the next one stands alone.
pub proof fn next_instruction_stands_alone(
    template: Seq<char>,
    ms: Seq<(Seq<char>, Seq<char>)>,
    before: Seq<char>,
    answer: Seq<char>,
    content: Seq<char>,
)
    requires
        is_inst(template),
    ensures
        ({
            let told = ms.push(("user"@, before)).push(("assistant"@, answer));
            chat_text(Some(template), told.push(("user"@, content)), false) == chat_text(
                Some(template),
                told,
                false,
            ) + "<s>[INST] "@ + content + " [/INST]"@
        }),
{
    lemma_roles();
    let asked = ms.push(("user"@, before));
    let told = asked.push(("assistant"@, answer));
    lemma_one_more(ms, "user"@, before);
    lemma_one_more(asked, "assistant"@, answer);
    lemma_one_more(told, "user"@, content);
    assert(chat_text(Some(template), told, false) =~= inst_text(told).0);
    assert(inst_text(asked).1 is None);
    assert(inst_text(told).1 is None);
    assert(chat_text(Some(template), told.push(("user"@, content)), false) =~= chat_text(
        Some(template),
        told,
        false,
    ) + "<s>[INST] "@ + content + " [/INST]"@);
}

/// An answer stands behind a space and ends its turn; a message of any other role stands
/// behind a space.
pub proof fn answers_follow_instructions(
    template: Seq<char>,
    ms: Seq<(Seq<char>, Seq<char>)>,
    role: Seq<char>,
    content: Seq<char>,
)
    requires
        is_inst(template),
        role != "system"@,
        role != "user"@,
    ensures
        chat_text(Some(template), ms.push((role, content)), false) == chat_text(
            Some(template),
            ms,
            false,
        ) + " "@ + content + if role == "assistant"@ {
            " </s>"@
        } else {
            seq![]
        },
{
    reveal_strlit(" ");
    assert(" "@ =~= seq![' ']);
    lemma_one_more(ms, role, content);
    assert(chat_text(Some(template), ms, false) =~= inst_text(ms).0);
    assert(chat_text(Some(template), ms.push((role, content)), false) =~= chat_text(
        Some(template),
        ms,
        false,
    ) + " "@ + content + if role == "assistant"@ {
        " </s>"@
    } else {
        seq![]
    });
}

/// An answer is asked for by an empty instruction, unless the chat ends in one.
pub proof fn answer_is_asked_for_once(template: Seq<char>, ms: Seq<(Seq<char>, Seq<char>)>)
    requires
        is_inst(template),
    ensures
        ({
            let text = chat_text(Some(template), ms, false);
            chat_text(Some(template), ms, true) == if asks(text) {
                text
            } else {
                text + " [INST] [/INST]"@
            }
        }),
{
    let text = chat_text(Some(template), ms, false);
    let end = "[/INST]"@;
    assert(text =~= inst_text(ms).0);
    if asks(text) {
        let front = choose|front: Seq<char>| text == #[trigger] (front + end);
        assert(text.subrange(text.len() - end.len(), text.len() as int) =~= end);
        assert(occurs_at(text, end, text.len() - end.len()));
    }
    if ends_in(text, end) {
        let front = text.take(text.len() - end.len());
        assert(text =~= front + end) by {
            assert forall|i: int| 0 <= i < text.len() implies text[i] == (front + end)[i] by {
                if i >= front.len() {
                    assert(text.subrange(front.len() as int, text.len() as int)[i - front.len()]
                        == end[i - front.len()]);
                }
            }
        }
        assert(asks(text));
    }
    assert(chat_text(Some(template), ms, true) =~= if asks(text) {
        text
    } else {
        text + " [INST] [/INST]"@
    });
}

} // verus!
