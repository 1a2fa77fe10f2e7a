//! Cache keys for AI prompts: a deterministic, provider-neutral encoding of
//! a prompt request (model, messages, tools, sampling parameters and so on)
//! hashed into a short ASCII key. Nothing here interprets prompts or calls
//! model providers.

use vstd::prelude::*;
use crate::bytes::{append_slice, be_u64, text_bytes, write_u64};
use crate::json::{canonical, write_canonical, JsonObject, JsonValue};

verus! {

/// What every prompt key starts with.
pub const PROMPT_KEY_PREFIX: &'static str = "ai:prompt:v1:";

/// The version of the normalization, the first field of every normalized
/// prompt.
pub const NORMALIZATION_VERSION: &'static str = "cachebox.ai.prompt.v1";

/// The offset basis of 128-bit FNV-1a.
pub const FNV_OFFSET_BASIS: u128 = 0x6c62272e07bb014262b821756295c58d;

/// The prime of 128-bit FNV-1a.
pub const FNV_PRIME: u128 = 0x0000000001000000000000000000013b;

/// One message of a conversation.
#[derive(Debug, Clone, PartialEq, Eq)]
pub struct PromptMessage {
    pub role: String,
    pub content: String,
    pub name: Option<String>,
}

impl PromptMessage {
    /// A message with a role and content and no name.
    pub fn new(role: &str, content: &str) -> (r: Self)
        ensures
            r.role@ == role@,
            r.content@ == content@,
            r.name is None,
    {
        PromptMessage { role: String::from_str(role), content: String::from_str(content), name: None }
    }

    /// The message with a name.
    pub fn with_name(self, name: &str) -> (r: Self)
        ensures
            r.role == self.role,
            r.content == self.content,
            r.name matches Some(n) && n@ == name@,
    {
        PromptMessage { role: self.role, content: self.content, name: Some(String::from_str(name)) }
    }
}

/// Everything about a prompt request that its cached answer depends on.
#[derive(Debug, Clone, PartialEq)]
pub struct PromptCacheKeyInput {
    pub provider: String,
    pub model: String,
    pub model_version: Option<String>,
    pub messages: Vec<PromptMessage>,
    pub system_prompt: Option<String>,
    pub tool_schema: Option<JsonValue>,
    pub sampling_parameters: JsonObject,
    pub output_format: Option<String>,
    pub retrieval_context_hash: Option<String>,
    pub application_namespace: String,
}

impl PromptCacheKeyInput {
    /// An input with a provider, a model and an application namespace, and
    /// nothing else.
    pub fn new(provider: &str, model: &str, application_namespace: &str) -> (r: Self)
        ensures
            r.provider@ == provider@,
            r.model@ == model@,
            r.application_namespace@ == application_namespace@,
            r.model_version is None,
            r.messages@.len() == 0,
            r.system_prompt is None,
            r.tool_schema is None,
            r.sampling_parameters.members().len() == 0,
            r.output_format is None,
            r.retrieval_context_hash is None,
    {
        PromptCacheKeyInput {
            provider: String::from_str(provider),
            model: String::from_str(model),
            model_version: None,
            messages: Vec::new(),
            system_prompt: None,
            tool_schema: None,
            sampling_parameters: JsonObject::new(),
            output_format: None,
            retrieval_context_hash: None,
            application_namespace: String::from_str(application_namespace),
        }
    }
}

/// A named field: the length of the name, the name, the length of the
/// value and the value, lengths as big-endian `u64`.
pub open spec fn field(name: Seq<char>, value: Seq<u8>) -> Seq<u8> {
    be_u64(text_bytes(name).len() as u64) + text_bytes(name) + be_u64(value.len() as u64) + value
}

/// A field whose value is text.
pub open spec fn text_field(name: Seq<char>, value: Seq<char>) -> Seq<u8> {
    field(name, text_bytes(value))
}

/// A field whose text may be missing; a missing value reads `<none>`.
pub open spec fn optional_field(name: Seq<char>, value: Option<String>) -> Seq<u8> {
    match value {
        Some(v) => text_field(name, v@),
        None => field(name, text_bytes("<none>"@)),
    }
}

/// A field whose JSON value may be missing, written canonically.
pub open spec fn json_field(name: Seq<char>, value: Option<JsonValue>) -> Seq<u8> {
    match value {
        Some(v) => field(name, canonical(v)),
        None => field(name, text_bytes("<none>"@)),
    }
}

/// The sampling parameters in order of name, each as a name field and a
/// value field.
pub open spec fn parameter_fields(s: Seq<(String, JsonValue)>) -> Seq<u8>
    decreases s.len(),
{
    if s.len() == 0 {
        seq![]
    } else {
        parameter_fields(s.drop_last()) + text_field("sampling.name"@, s.last().0@) + field(
            "sampling.value"@,
            canonical(s.last().1),
        )
    }
}

/// The sampling parameters: a marker field, their number, then each one.
pub open spec fn sampling_fields(s: Seq<(String, JsonValue)>) -> Seq<u8> {
    field("sampling_parameters"@, text_bytes("map"@)) + be_u64(s.len() as u64) + parameter_fields(s)
}

/// The messages in order, each as its role, its name and its content.
pub open spec fn message_fields(s: Seq<PromptMessage>) -> Seq<u8>
    decreases s.len(),
{
    if s.len() == 0 {
        seq![]
    } else {
        message_fields(s.drop_last()) + text_field("message.role"@, s.last().role@)
            + optional_field("message.name"@, s.last().name) + text_field(
            "message.content"@,
            s.last().content@,
        )
    }
}

/// The normalized bytes of a prompt request: every field in a fixed order,
/// each one length-prefixed.
pub open spec fn normalized(input: PromptCacheKeyInput) -> Seq<u8> {
    text_field("version"@, NORMALIZATION_VERSION@) + text_field("provider"@, input.provider@)
        + text_field("model"@, input.model@) + optional_field("model_version"@, input.model_version)
        + optional_field("system_prompt"@, input.system_prompt) + json_field(
        "tool_schema"@,
        input.tool_schema,
    ) + sampling_fields(input.sampling_parameters.members()) + optional_field(
        "output_format"@,
        input.output_format,
    ) + optional_field("retrieval_context_hash"@, input.retrieval_context_hash) + text_field(
        "application_namespace"@,
        input.application_namespace@,
    ) + be_u64(input.messages@.len() as u64) + message_fields(input.messages@)
}

/// Appends a named field.
fn append_bytes(out: &mut Vec<u8>, name: &str, value: &[u8])
    ensures
        final(out)@ == old(out)@ + field(name@, value@),
{
    let nb = name.as_bytes();
    write_u64(out, nb.len() as u64);
    append_slice(out, nb);
    write_u64(out, value.len() as u64);
    append_slice(out, value);
    assert(final(out)@ =~= old(out)@ + field(name@, value@));
}

/// Appends a field whose value is text.
fn append_str(out: &mut Vec<u8>, name: &str, value: &str)
    ensures
        final(out)@ == old(out)@ + text_field(name@, value@),
{
    append_bytes(out, name, value.as_bytes());
}

/// Appends a field whose text may be missing.
fn append_optional_str(out: &mut Vec<u8>, name: &str, value: &Option<String>)
    ensures
        final(out)@ == old(out)@ + optional_field(name@, *value),
{
    match value {
        Some(v) => append_str(out, name, v.as_str()),
        None => append_bytes(out, name, "<none>".as_bytes()),
    }
}

/// Appends a field whose JSON value may be missing.
fn append_json(out: &mut Vec<u8>, name: &str, value: &Option<JsonValue>)
    ensures
        final(out)@ == old(out)@ + json_field(name@, *value),
{
    match value {
        Some(v) => {
            let mut text: Vec<u8> = Vec::new();
            write_canonical(v, &mut text);
            assert(text@ =~= canonical(*v));
            append_bytes(out, name, text.as_slice());
        },
        None => append_bytes(out, name, "<none>".as_bytes()),
    }
}

/// Appends the sampling parameters.
fn append_sampling_parameters(out: &mut Vec<u8>, parameters: &JsonObject)
    ensures
        final(out)@ == old(out)@ + sampling_fields(parameters.members()),
{
    let ghost start = old(out)@;
    let ghost s = parameters.members();
    append_bytes(out, "sampling_parameters", "map".as_bytes());
    write_u64(out, parameters.len() as u64);
    let ghost head = out@;
    let mut i: usize = 0;
    while i < parameters.len()
        invariant
            0 <= i <= s.len(),
            s == parameters.members(),
            out@ == head + parameter_fields(s.subrange(0, i as int)),
        decreases s.len() - i,
    {
        let member = parameters.member(i);
        append_str(out, "sampling.name", member.0.as_str());
        let mut text: Vec<u8> = Vec::new();
        write_canonical(&member.1, &mut text);
        append_bytes(out, "sampling.value", text.as_slice());
        proof {
            let t = s.subrange(0, i + 1);
            assert(t.drop_last() =~= s.subrange(0, i as int));
            assert(text@ =~= canonical(s[i as int].1));
        }
        i = i + 1;
    }
    assert(s.subrange(0, s.len() as int) =~= s);
    assert(out@ =~= start + sampling_fields(s));
}

/// The normalized bytes of a prompt request.
pub fn normalize_prompt_input(input: &PromptCacheKeyInput) -> (r: Vec<u8>)
    ensures
        r@ == normalized(*input),
{
    let mut out: Vec<u8> = Vec::new();
    append_str(&mut out, "version", NORMALIZATION_VERSION);
    append_str(&mut out, "provider", input.provider.as_str());
    append_str(&mut out, "model", input.model.as_str());
    append_optional_str(&mut out, "model_version", &input.model_version);
    append_optional_str(&mut out, "system_prompt", &input.system_prompt);
    append_json(&mut out, "tool_schema", &input.tool_schema);
    append_sampling_parameters(&mut out, &input.sampling_parameters);
    append_optional_str(&mut out, "output_format", &input.output_format);
    append_optional_str(&mut out, "retrieval_context_hash", &input.retrieval_context_hash);
    append_str(&mut out, "application_namespace", input.application_namespace.as_str());
    write_u64(&mut out, input.messages.len() as u64);
    let ghost head = out@;
    let ghost s = input.messages@;
    let mut i: usize = 0;
    while i < input.messages.len()
        invariant
            0 <= i <= s.len(),
            s == input.messages@,
            out@ == head + message_fields(s.subrange(0, i as int)),
        decreases s.len() - i,
    {
        let message = &input.messages[i];
        append_str(&mut out, "message.role", message.role.as_str());
        append_optional_str(&mut out, "message.name", &message.name);
        append_str(&mut out, "message.content", message.content.as_str());
        proof {
            let t = s.subrange(0, i + 1);
            assert(t.drop_last() =~= s.subrange(0, i as int));
        }
        i = i + 1;
    }
    assert(s.subrange(0, s.len() as int) =~= s);
    assert(out@ =~= normalized(*input));
    out
}

/// One step of FNV-1a: mix in a byte, then multiply by the prime.
pub open spec fn fnv_step(hash: u128, byte: u8) -> u128 {
    (hash ^ (byte as u128)).wrapping_mul(FNV_PRIME)
}

/// The 128-bit FNV-1a hash of the bytes.
pub open spec fn fnv1a(bytes: Seq<u8>) -> u128
    decreases bytes.len(),
{
    if bytes.len() == 0 {
        FNV_OFFSET_BASIS
    } else {
        fnv_step(fnv1a(bytes.drop_last()), bytes.last())
    }
}

/// The 128-bit FNV-1a hash of `bytes`.
pub fn fnv1a_128(bytes: &[u8]) -> (r: u128)
    ensures
        r == fnv1a(bytes@),
{
    let mut hash: u128 = FNV_OFFSET_BASIS;
    let mut i: usize = 0;
    while i < bytes.len()
        invariant
            0 <= i <= bytes@.len(),
            hash == fnv1a(bytes@.subrange(0, i as int)),
        decreases bytes@.len() - i,
    {
        proof {
            let t = bytes@.subrange(0, i + 1);
            assert(t.drop_last() =~= bytes@.subrange(0, i as int));
        }
        hash = (hash ^ (bytes[i] as u128)).wrapping_mul(FNV_PRIME);
        i = i + 1;
    }
    assert(bytes@.subrange(0, bytes@.len() as int) =~= bytes@);
    hash
}

/// The lower-case hexadecimal digit for a value below 16.
pub open spec fn hex_digit(n: u128) -> u8 {
    if n < 10 {
        (48 + n) as u8
    } else {
        (87 + n) as u8
    }
}

/// The 32 lower-case hexadecimal digits of `v`, most significant first.
pub open spec fn hex_u128(v: u128) -> Seq<u8> {
    Seq::new(32, |i: int| hex_digit((v >> ((124 - 4 * i) as u128)) & 0xfu128))
}

/// Four bits are below 16.
proof fn lemma_nibble(v: u128, shift: u128)
    ensures
        (v >> shift) & 0xfu128 < 16,
{
    assert((v >> shift) & 0xfu128 < 16) by (bit_vector);
}

/// Appends the 32 hexadecimal digits of `value`.
fn write_hex_u128(value: u128, out: &mut Vec<u8>)
    ensures
        final(out)@ == old(out)@ + hex_u128(value),
{
    let ghost start = old(out)@;
    let mut k: u128 = 0;
    while k < 32
        invariant
            0 <= k <= 32,
            out@.len() == start.len() + k,
            out@.subrange(0, start.len() as int) == start,
            forall|j: int| 0 <= j < k ==> out@[start.len() + j] == #[trigger] hex_u128(value)[j],
        decreases 32 - k,
    {
        let shift: u128 = 124 - 4 * k;
        let nibble: u128 = (value >> shift) & 0xfu128;
        proof {
            lemma_nibble(value, shift);
        }
        let digit: u8 = if nibble < 10 {
            (48 + nibble) as u8
        } else {
            (87 + nibble) as u8
        };
        out.push(digit);
        k = k + 1;
    }
    assert(out@ =~= start + hex_u128(value));
}

/// The cache key of a prompt request: the prefix, then the hexadecimal
/// 128-bit FNV-1a hash of the normalized request. The key is always the
/// prefix and 32 lower-case hexadecimal digits, all ASCII.
pub fn prompt_cache_key(input: &PromptCacheKeyInput) -> (r: Vec<u8>)
    ensures
        r@ == text_bytes(PROMPT_KEY_PREFIX@) + hex_u128(fnv1a(normalized(*input))),
        r@.len() == text_bytes(PROMPT_KEY_PREFIX@).len() + 32,
        forall|i: int| 0 <= i < r@.len() ==> #[trigger] r@[i] < 128,
{
    let normalized_bytes = normalize_prompt_input(input);
    let digest = fnv1a_128(normalized_bytes.as_slice());
    let mut key: Vec<u8> = Vec::new();
    append_slice(&mut key, PROMPT_KEY_PREFIX.as_bytes());
    write_hex_u128(digest, &mut key);
    proof {
        reveal_strlit("ai:prompt:v1:");
        assert(vstd::utf8::is_ascii_chars(PROMPT_KEY_PREFIX@));
        vstd::utf8::is_ascii_chars_encode_utf8(PROMPT_KEY_PREFIX@);
        let p = text_bytes(PROMPT_KEY_PREFIX@);
        let h = hex_u128(digest);
        assert forall|i: int| 0 <= i < key@.len() implies #[trigger] key@[i] < 128 by {
            if i < p.len() {
                assert(key@[i] == p[i]);
                assert(PROMPT_KEY_PREFIX@[i] as u8 == p[i]);
            } else {
                assert(key@[i] == h[i - p.len()]);
                lemma_nibble(digest, (124 - 4 * (i - p.len())) as u128);
            }
        }
    }
    key
}

} // verus!

verus! {

/// Bytes that differ only in a middle part differ.
pub(crate) proof fn lemma_middle_differs(x: Seq<u8>, f: Seq<u8>, g: Seq<u8>, y: Seq<u8>)
    requires
        f != g,
    ensures
        x + f + y != x + g + y,
{
    if x + f + y == x + g + y {
        assert((x + f + y).len() == (x + g + y).len());
        assert(f.len() == g.len());
        assert forall|k: int| 0 <= k < f.len() implies f[k] == g[k] by {
            assert((x + f + y)[x.len() + k] == f[k]);
            assert((x + g + y)[x.len() + k] == g[k]);
        }
        assert(f =~= g);
    }
}

/// A missing value and an empty one make different fields.
proof fn lemma_missing_field_differs(name: Seq<char>, empty: String)
    requires
        empty@.len() == 0,
    ensures
        optional_field(name, None) != optional_field(name, Some(empty)),
{
    reveal_strlit("<none>");
    assert(vstd::utf8::is_ascii_chars("<none>"@));
    vstd::utf8::is_ascii_chars_encode_utf8("<none>"@);
    vstd::utf8::is_ascii_chars_encode_utf8(empty@);
    assert(optional_field(name, None).len() != optional_field(name, Some(empty)).len());
}

/// The normalized bytes in three parts: the fields before the `k`-th
/// optional text field (model version, system prompt, output format,
/// retrieval context hash), that field, and the fields after it.
spec fn split_at_optional(input: PromptCacheKeyInput, k: int) -> (Seq<u8>, Seq<u8>) {
    let v = text_field("version"@, NORMALIZATION_VERSION@);
    let p = text_field("provider"@, input.provider@);
    let m = text_field("model"@, input.model@);
    let mv = optional_field("model_version"@, input.model_version);
    let sp = optional_field("system_prompt"@, input.system_prompt);
    let ts = json_field("tool_schema"@, input.tool_schema);
    let sa = sampling_fields(input.sampling_parameters.members());
    let of = optional_field("output_format"@, input.output_format);
    let rc = optional_field("retrieval_context_hash"@, input.retrieval_context_hash);
    let an = text_field("application_namespace"@, input.application_namespace@);
    let ms = be_u64(input.messages@.len() as u64) + message_fields(input.messages@);
    if k == 0 {
        (v + p + m, sp + ts + sa + of + rc + an + ms)
    } else if k == 1 {
        (v + p + m + mv, ts + sa + of + rc + an + ms)
    } else if k == 2 {
        (v + p + m + mv + sp + ts + sa, rc + an + ms)
    } else {
        (v + p + m + mv + sp + ts + sa + of, an + ms)
    }
}

proof fn lemma_split_model_version(input: PromptCacheKeyInput, value: Option<String>)
    ensures
        ({
            let i = PromptCacheKeyInput { model_version: value, ..input };
            normalized(i) == split_at_optional(i, 0).0 + optional_field("model_version"@, value)
                + split_at_optional(i, 0).1
        }),
{
    let i = PromptCacheKeyInput { model_version: value, ..input };
    assert(normalized(i) =~= split_at_optional(i, 0).0 + optional_field("model_version"@, value)
        + split_at_optional(i, 0).1);
}

proof fn lemma_split_system_prompt(input: PromptCacheKeyInput, value: Option<String>)
    ensures
        ({
            let i = PromptCacheKeyInput { system_prompt: value, ..input };
            normalized(i) == split_at_optional(i, 1).0 + optional_field("system_prompt"@, value)
                + split_at_optional(i, 1).1
        }),
{
    let i = PromptCacheKeyInput { system_prompt: value, ..input };
    assert(normalized(i) =~= split_at_optional(i, 1).0 + optional_field("system_prompt"@, value)
        + split_at_optional(i, 1).1);
}

proof fn lemma_split_output_format(input: PromptCacheKeyInput, value: Option<String>)
    ensures
        ({
            let i = PromptCacheKeyInput { output_format: value, ..input };
            normalized(i) == split_at_optional(i, 2).0 + optional_field("output_format"@, value)
                + split_at_optional(i, 2).1
        }),
{
    let i = PromptCacheKeyInput { output_format: value, ..input };
    assert(normalized(i) =~= split_at_optional(i, 2).0 + optional_field("output_format"@, value)
        + split_at_optional(i, 2).1);
}

proof fn lemma_split_retrieval_context_hash(input: PromptCacheKeyInput, value: Option<String>)
    ensures
        ({
            let i = PromptCacheKeyInput { retrieval_context_hash: value, ..input };
            normalized(i) == split_at_optional(i, 3).0 + optional_field(
                "retrieval_context_hash"@,
                value,
            ) + split_at_optional(i, 3).1
        }),
{
    let i = PromptCacheKeyInput { retrieval_context_hash: value, ..input };
    assert(normalized(i) =~= split_at_optional(i, 3).0 + optional_field(
        "retrieval_context_hash"@,
        value,
    ) + split_at_optional(i, 3).1);
}

/// A missing optional field and an empty one never normalize alike: for
/// each of the model version, the system prompt, the output format and the
/// retrieval context hash, a request without it and the same request with
/// it empty have different normalized bytes.
pub proof fn law_missing_differs_from_empty(input: PromptCacheKeyInput, empty: String)
    requires
        empty@.len() == 0,
    ensures
        normalized(PromptCacheKeyInput { model_version: None, ..input }) != normalized(
            PromptCacheKeyInput { model_version: Some(empty), ..input },
        ),
        normalized(PromptCacheKeyInput { system_prompt: None, ..input }) != normalized(
            PromptCacheKeyInput { system_prompt: Some(empty), ..input },
        ),
        normalized(PromptCacheKeyInput { output_format: None, ..input }) != normalized(
            PromptCacheKeyInput { output_format: Some(empty), ..input },
        ),
        normalized(PromptCacheKeyInput { retrieval_context_hash: None, ..input }) != normalized(
            PromptCacheKeyInput { retrieval_context_hash: Some(empty), ..input },
        ),
{
    let none = Option::<String>::None;
    let some = Some(empty);
    let a = PromptCacheKeyInput { model_version: none, ..input };
    let b = PromptCacheKeyInput { model_version: some, ..input };
    lemma_split_model_version(input, none);
    lemma_split_model_version(input, some);
    lemma_missing_field_differs("model_version"@, empty);
    assert(split_at_optional(a, 0) == split_at_optional(b, 0));
    lemma_middle_differs(
        split_at_optional(a, 0).0,
        optional_field("model_version"@, none),
        optional_field("model_version"@, some),
        split_at_optional(a, 0).1,
    );
    let a = PromptCacheKeyInput { system_prompt: none, ..input };
    let b = PromptCacheKeyInput { system_prompt: some, ..input };
    lemma_split_system_prompt(input, none);
    lemma_split_system_prompt(input, some);
    lemma_missing_field_differs("system_prompt"@, empty);
    assert(split_at_optional(a, 1) == split_at_optional(b, 1));
    lemma_middle_differs(
        split_at_optional(a, 1).0,
        optional_field("system_prompt"@, none),
        optional_field("system_prompt"@, some),
        split_at_optional(a, 1).1,
    );
    let a = PromptCacheKeyInput { output_format: none, ..input };
    let b = PromptCacheKeyInput { output_format: some, ..input };
    lemma_split_output_format(input, none);
    lemma_split_output_format(input, some);
    lemma_missing_field_differs("output_format"@, empty);
    assert(split_at_optional(a, 2) == split_at_optional(b, 2));
    lemma_middle_differs(
        split_at_optional(a, 2).0,
        optional_field("output_format"@, none),
        optional_field("output_format"@, some),
        split_at_optional(a, 2).1,
    );
    let a = PromptCacheKeyInput { retrieval_context_hash: none, ..input };
    let b = PromptCacheKeyInput { retrieval_context_hash: some, ..input };
    lemma_split_retrieval_context_hash(input, none);
    lemma_split_retrieval_context_hash(input, some);
    lemma_missing_field_differs("retrieval_context_hash"@, empty);
    assert(split_at_optional(a, 3) == split_at_optional(b, 3));
    lemma_middle_differs(
        split_at_optional(a, 3).0,
        optional_field("retrieval_context_hash"@, none),
        optional_field("retrieval_context_hash"@, some),
        split_at_optional(a, 3).1,
    );
}


} // verus!
