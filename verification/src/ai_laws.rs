//! What a prompt's normalized bytes keep apart: every message's name.

use vstd::prelude::*;
use crate::ai::{
    field, json_field, lemma_middle_differs, message_fields, normalized, optional_field,
    sampling_fields, text_field, PromptCacheKeyInput, PromptMessage, NORMALIZATION_VERSION,
};
use crate::bytes::{be_u64, text_bytes};

verus! {

/// The text a message's name is written as: the name, or `<none>` when the
/// message has none.
pub open spec fn name_text(name: Option<String>) -> Seq<char> {
    match name {
        Some(v) => v@,
        None => "<none>"@,
    }
}

/// One message's fields: its role, its name and its content.
spec fn one_message_fields(msg: PromptMessage) -> Seq<u8> {
    text_field("message.role"@, msg.role@) + optional_field("message.name"@, msg.name) + text_field(
        "message.content"@,
        msg.content@,
    )
}

proof fn lemma_message_fields_concat(a: Seq<PromptMessage>, b: Seq<PromptMessage>)
    ensures
        message_fields(a + b) == message_fields(a) + message_fields(b),
    decreases b.len(),
{
    if b.len() == 0 {
        assert(a + b =~= a);
        assert(message_fields(b) =~= Seq::<u8>::empty());
        assert(message_fields(a) + message_fields(b) =~= message_fields(a));
    } else {
        lemma_message_fields_concat(a, b.drop_last());
        assert((a + b).drop_last() =~= a + b.drop_last());
        assert((a + b).last() == b.last());
        assert(message_fields(a + b) =~= message_fields(a) + message_fields(b));
    }
}

proof fn lemma_message_fields_single(m: PromptMessage)
    ensures
        message_fields(seq![m]) == one_message_fields(m),
{
    assert(seq![m].drop_last() =~= Seq::<PromptMessage>::empty());
    assert(message_fields(Seq::<PromptMessage>::empty()) =~= Seq::<u8>::empty());
    assert(message_fields(seq![m]) =~= one_message_fields(m));
}

/// A field's value is read back from the field.
proof fn lemma_field_value_injective(name: Seq<char>, v1: Seq<u8>, v2: Seq<u8>)
    requires
        field(name, v1) == field(name, v2),
    ensures
        v1 == v2,
{
    let p = be_u64(text_bytes(name).len() as u64) + text_bytes(name);
    let f1 = field(name, v1);
    let f2 = field(name, v2);
    assert(be_u64(v1.len() as u64).len() == 8);
    assert(be_u64(v2.len() as u64).len() == 8);
    assert(f1.len() == p.len() + 8 + v1.len());
    assert(f2.len() == p.len() + 8 + v2.len());
    assert forall|k: int| 0 <= k < v1.len() implies v1[k] == v2[k] by {
        assert(f1[p.len() + 8 + k] == v1[k]);
        assert(f2[p.len() + 8 + k] == v2[k]);
    }
    assert(v1 =~= v2);
}

/// Two names written differently make different name fields.
proof fn lemma_name_fields_differ(a: Option<String>, b: Option<String>)
    requires
        name_text(a) != name_text(b),
    ensures
        optional_field("message.name"@, a) != optional_field("message.name"@, b),
{
    assert(optional_field("message.name"@, a) == field("message.name"@, text_bytes(name_text(a))));
    assert(optional_field("message.name"@, b) == field("message.name"@, text_bytes(name_text(b))));
    if optional_field("message.name"@, a) == optional_field("message.name"@, b) {
        lemma_field_value_injective("message.name"@, text_bytes(name_text(a)), text_bytes(name_text(b)));
        vstd::utf8::encode_utf8_decode_utf8(name_text(a));
        vstd::utf8::encode_utf8_decode_utf8(name_text(b));
    }
}

/// The normalized bytes before the messages.
spec fn head_fields(a: PromptCacheKeyInput) -> Seq<u8> {
    text_field("version"@, NORMALIZATION_VERSION@) + text_field("provider"@, a.provider@)
        + text_field("model"@, a.model@) + optional_field("model_version"@, a.model_version)
        + optional_field("system_prompt"@, a.system_prompt) + json_field("tool_schema"@, a.tool_schema)
        + sampling_fields(a.sampling_parameters.members()) + optional_field(
        "output_format"@,
        a.output_format,
    ) + optional_field("retrieval_context_hash"@, a.retrieval_context_hash) + text_field(
        "application_namespace"@,
        a.application_namespace@,
    )
}

proof fn lemma_normalized_parts(a: PromptCacheKeyInput)
    ensures
        normalized(a) == head_fields(a) + be_u64(a.messages@.len() as u64) + message_fields(a.messages@),
{
}

proof fn lemma_messages_differ(ma: Seq<PromptMessage>, mb: Seq<PromptMessage>, i: int)
    requires
        ma.len() == mb.len(),
        0 <= i < ma.len(),
        forall|j: int| 0 <= j < ma.len() && j != i ==> ma[j] == mb[j],
        ma[i].role == mb[i].role,
        ma[i].content == mb[i].content,
        name_text(ma[i].name) != name_text(mb[i].name),
    ensures
        message_fields(ma) != message_fields(mb),
{
    assert(ma.take(i) =~= mb.take(i));
    assert(ma.skip(i + 1) =~= mb.skip(i + 1));
    assert(ma =~= ma.take(i) + seq![ma[i]] + ma.skip(i + 1));
    assert(mb =~= mb.take(i) + seq![mb[i]] + mb.skip(i + 1));
    lemma_message_fields_concat(ma.take(i) + seq![ma[i]], ma.skip(i + 1));
    lemma_message_fields_concat(ma.take(i), seq![ma[i]]);
    lemma_message_fields_concat(mb.take(i) + seq![mb[i]], mb.skip(i + 1));
    lemma_message_fields_concat(mb.take(i), seq![mb[i]]);
    lemma_message_fields_single(ma[i]);
    lemma_message_fields_single(mb[i]);
    lemma_name_fields_differ(ma[i].name, mb[i].name);
    let x = message_fields(ma.take(i)) + text_field("message.role"@, ma[i].role@);
    let y = text_field("message.content"@, ma[i].content@) + message_fields(ma.skip(i + 1));
    let fa = optional_field("message.name"@, ma[i].name);
    let fb = optional_field("message.name"@, mb[i].name);
    assert(message_fields(ma) =~= x + fa + y);
    assert(message_fields(mb) =~= x + fb + y);
    lemma_middle_differs(x, fa, fb, y);
}

/// A message's name is part of what a prompt normalizes to: two prompts
/// that differ only in the name of one message, the two names written
/// differently (a missing name is written `<none>`), normalize to
/// different bytes.
pub proof fn law_message_name_counts(a: PromptCacheKeyInput, b: PromptCacheKeyInput, i: int)
    requires
        (PromptCacheKeyInput { messages: b.messages, ..a }) == b,
        a.messages@.len() == b.messages@.len(),
        0 <= i < a.messages@.len(),
        forall|j: int| 0 <= j < a.messages@.len() && j != i ==> a.messages@[j] == b.messages@[j],
        a.messages@[i].role == b.messages@[i].role,
        a.messages@[i].content == b.messages@[i].content,
        name_text(a.messages@[i].name) != name_text(b.messages@[i].name),
    ensures
        normalized(a) != normalized(b),
{
    lemma_normalized_parts(a);
    lemma_normalized_parts(b);
    assert(head_fields(a) == head_fields(b));
    lemma_messages_differ(a.messages@, b.messages@, i);
    let x = head_fields(a) + be_u64(a.messages@.len() as u64);
    lemma_middle_differs(x, message_fields(a.messages@), message_fields(b.messages@), Seq::empty());
    assert(normalized(a) =~= x + message_fields(a.messages@) + Seq::<u8>::empty());
    assert(normalized(b) =~= x + message_fields(b.messages@) + Seq::<u8>::empty());
}

} // verus!
