//! Sessions of an embedded model that are kept for later, and the processor that they run on.
use std::collections::hash_map::DefaultHasher;
use std::hash::Hasher;
use vstd::prelude::*;
use vstd::std_specs::hash::DefaultHasherAdditionalSpecFns;
use crate::config::catalog::ModelDefinition;
use crate::error;
use crate::error::CompressionError;
use crate::runtime::benchmark::SessionParams;
use crate::runtime::digest;
use crate::runtime::thread_tuning;
use crate::runtime::thread_tuning::{CpuInstructionCapabilities, RuntimeInferenceConfig};
use crate::text;
use crate::text_map;
use crate::text_map::TextMap;

verus! {

/// The number of sessions that are kept with the shared part of a prompt.
pub const MAX_PREPARED_PROMPT_SESSIONS: usize = 3;

/// Value of [`embedded_model_cache_key`].
pub open spec fn spec_embedded_model_cache_key(model_id: Seq<char>, path: Seq<char>) -> Seq<char> {
    model_id + ":"@ + path
}

/// The name under which a loaded model is kept.
pub fn embedded_model_cache_key(model: &ModelDefinition, model_path: &str) -> (r: String)
    ensures
        r@ == spec_embedded_model_cache_key(model@.id, model_path@),
{
    text::concat3(&model.id, ":", model_path)
}

/// The settings of a session as they stand in the names of sessions.
pub open spec fn settings_name(context_length: u32, configuration: RuntimeInferenceConfig) -> Seq<
    char,
> {
    text::spec_decimal(context_length as nat) + ":"@ + text::spec_decimal(
        configuration.threads.generation as nat,
    ) + ":"@ + text::spec_decimal(configuration.threads.batch as nat) + ":"@ + text::spec_decimal(
        configuration.batch_sizes.logical as nat,
    ) + ":"@ + text::spec_decimal(configuration.batch_sizes.physical as nat)
}

/// The settings of a session as they stand in the names of sessions.
fn settings_name_of(context_length: u32, configuration: RuntimeInferenceConfig) -> (r: String)
    ensures
        r@ == settings_name(context_length, configuration),
{
    let threads: String = text::concat5(
        &text::decimal(context_length as u64),
        ":",
        &text::decimal(configuration.threads.generation as u64),
        ":",
        &text::decimal(configuration.threads.batch as u64),
    );
    text::concat5(
        &threads,
        ":",
        &text::decimal(configuration.batch_sizes.logical as u64),
        ":",
        &text::decimal(configuration.batch_sizes.physical as u64),
    )
}

/// The hash of the shared part of a prompt: that of its bytes and of one that no text holds.
pub open spec fn spec_hash_of_prefix(prefix: Seq<char>) -> u64 {
    DefaultHasher::spec_finish(seq![vstd::utf8::encode_utf8(prefix), seq![255u8]])
}

/// The hash of the shared part of a prompt.
pub fn hash_of_prefix(prefix: &str) -> (r: u64)
    ensures
        r == spec_hash_of_prefix(prefix@),
{
    let mut hasher: DefaultHasher = DefaultHasher::new();
    let end: [u8; 1] = [255u8];
    hasher.write(prefix.as_bytes());
    hasher.write(&end);
    assert(end@ =~= seq![255u8]);
    assert(hasher@ =~= seq![vstd::utf8::encode_utf8(prefix@), seq![255u8]]);
    hasher.finish()
}

/// Value of [`embedded_prompt_cache_key`].
pub open spec fn spec_embedded_prompt_cache_key(
    model_id: Seq<char>,
    path: Seq<char>,
    context_length: u32,
    configuration: RuntimeInferenceConfig,
    prefix: Seq<char>,
) -> Seq<char> {
    model_id + ":"@ + path + ":"@ + settings_name(context_length, configuration) + ":"@
        + text::spec_decimal(spec_hash_of_prefix(prefix) as nat)
}

/// The name under which a session of the model with the name is kept that has read the shared part
/// of a prompt, by the hash of that part.
pub fn embedded_prompt_cache_key(
    model_id: &str,
    model_path: &str,
    context_length: u32,
    configuration: RuntimeInferenceConfig,
    prefix: &str,
) -> (r: String)
    ensures
        r@ == spec_embedded_prompt_cache_key(
            model_id@,
            model_path@,
            context_length,
            configuration,
            prefix@,
        ),
{
    let start: String = text::concat5(
        model_id,
        ":",
        model_path,
        ":",
        &settings_name_of(context_length, configuration),
    );
    text::concat3(&start, ":", &text::decimal(hash_of_prefix(prefix)))
}

/// The bytes by which two inputs are told apart: the length of the shared part, that part, and the
/// rest.
pub open spec fn input_bytes(prefix: Seq<char>, suffix: Seq<char>) -> Seq<u8> {
    let shared = vstd::utf8::encode_utf8(prefix);
    vstd::bytes::spec_u64_to_le_bytes(shared.len() as u64) + shared + vstd::utf8::encode_utf8(
        suffix,
    )
}

/// Value of [`embedded_input_cache_key`].
pub open spec fn spec_embedded_input_cache_key(
    model_id: Seq<char>,
    path: Seq<char>,
    context_length: u32,
    configuration: RuntimeInferenceConfig,
    prefix: Seq<char>,
    suffix: Seq<char>,
) -> Seq<char> {
    model_id + ":"@ + path + ":"@ + settings_name(context_length, configuration) + ":input:"@
        + digest::spec_encode_hex(digest::sha256(input_bytes(prefix, suffix)))
}

/// Appends bytes to bytes.
fn append(bytes: &mut Vec<u8>, more: &[u8])
    ensures
        final(bytes)@ == old(bytes)@ + more@,
{
    let ghost before = bytes@;
    let total: usize = more.len();
    let mut i: usize = 0;
    assert(before + more@.take(0) =~= before);
    while i < total
        invariant
            i <= total == more@.len(),
            bytes@ == before + more@.take(i as int),
        decreases total - i,
    {
        bytes.push(more[i]);
        i = i + 1;
        assert(bytes@ =~= before + more@.take(i as int));
    }
    assert(more@.take(total as int) =~= more@);
}

/// The name under which a session of the model is kept that has read a whole prompt. The prompt
/// itself does not stand in it.
pub fn embedded_input_cache_key(
    model: &ModelDefinition,
    model_path: &str,
    context_length: u32,
    configuration: RuntimeInferenceConfig,
    embedded_prompt_prefix: &str,
    embedded_prompt_suffix: &str,
) -> (r: String)
    ensures
        r@ == spec_embedded_input_cache_key(
            model@.id,
            model_path@,
            context_length,
            configuration,
            embedded_prompt_prefix@,
            embedded_prompt_suffix@,
        ),
{
    input_cache_key(
        &model.id,
        model_path,
        context_length,
        configuration,
        embedded_prompt_prefix,
        embedded_prompt_suffix,
    )
}

/// The name under which a session of the model with the name is kept that has read a whole prompt.
pub fn input_cache_key(
    model_id: &str,
    model_path: &str,
    context_length: u32,
    configuration: RuntimeInferenceConfig,
    embedded_prompt_prefix: &str,
    embedded_prompt_suffix: &str,
) -> (r: String)
    ensures
        r@ == spec_embedded_input_cache_key(
            model_id@,
            model_path@,
            context_length,
            configuration,
            embedded_prompt_prefix@,
            embedded_prompt_suffix@,
        ),
{
    let shared: &[u8] = embedded_prompt_prefix.as_bytes();
    let mut bytes: Vec<u8> = vstd::bytes::u64_to_le_bytes(shared.len() as u64);
    append(&mut bytes, shared);
    append(&mut bytes, embedded_prompt_suffix.as_bytes());
    let start: String = text::concat5(
        model_id,
        ":",
        model_path,
        ":",
        &settings_name_of(context_length, configuration),
    );
    text::concat3(&start, ":input:", &digest::sha256_hex(bytes.as_slice()))
}

/// The bytes by which inputs are told apart differ where the inputs differ.
pub proof fn inputs_differ_in_bytes(
    prefix: Seq<char>,
    suffix: Seq<char>,
    other_prefix: Seq<char>,
    other_suffix: Seq<char>,
)
    requires
        input_bytes(prefix, suffix) == input_bytes(other_prefix, other_suffix),
        vstd::utf8::encode_utf8(prefix).len() <= u64::MAX,
        vstd::utf8::encode_utf8(other_prefix).len() <= u64::MAX,
    ensures
        prefix == other_prefix,
        suffix == other_suffix,
{
    broadcast use vstd::utf8::encode_utf8_decode_utf8;

    let a = vstd::utf8::encode_utf8(prefix);
    let b = vstd::utf8::encode_utf8(other_prefix);
    let x = input_bytes(prefix, suffix);
    let y = input_bytes(other_prefix, other_suffix);
    vstd::bytes::lemma_auto_spec_u64_to_from_le_bytes();
    assert(x.take(8) =~= vstd::bytes::spec_u64_to_le_bytes(a.len() as u64));
    assert(y.take(8) =~= vstd::bytes::spec_u64_to_le_bytes(b.len() as u64));
    assert(a.len() as u64 == b.len() as u64);
    assert(x.subrange(8, 8 + a.len() as int) =~= a);
    assert(y.subrange(8, 8 + b.len() as int) =~= b);
    assert(x.skip(8 + a.len() as int) =~= vstd::utf8::encode_utf8(suffix));
    assert(y.skip(8 + b.len() as int) =~= vstd::utf8::encode_utf8(other_suffix));
    assert(vstd::utf8::decode_utf8(a) == prefix);
    assert(vstd::utf8::decode_utf8(b) == other_prefix);
    assert(vstd::utf8::decode_utf8(vstd::utf8::encode_utf8(suffix)) == suffix);
    assert(vstd::utf8::decode_utf8(vstd::utf8::encode_utf8(other_suffix)) == other_suffix);
}

/// The character stands nowhere in the text.
spec fn lacks(text: Seq<char>, c: char) -> bool {
    forall|i: int| 0 <= i < text.len() ==> #[trigger] text[i] != c
}

/// A decimal notation is made of digits, and only one number has it.
proof fn decimals_are_unique(a: nat, b: nat)
    ensures
        lacks(text::spec_decimal(a), ':'),
        text::spec_decimal(a).len() > 0,
        text::spec_decimal(a) == text::spec_decimal(b) ==> a == b,
    decreases a,
{
    let x = text::spec_decimal(a);
    let y = text::spec_decimal(b);
    assert(forall|d: int|
        0 <= d < 10 ==> (#[trigger] text::digit_char(d)) as int == d + 48);
    if a >= 10 {
        decimals_are_unique(a / 10, b / 10);
        assert(x.drop_last() =~= text::spec_decimal(a / 10));
        assert forall|i: int| 0 <= i < x.len() implies #[trigger] x[i] != ':' by {
            if i < x.len() - 1 {
                assert(x[i] == text::spec_decimal(a / 10)[i]);
            }
        }
    }
    if x == y {
        if a < 10 {
            if b >= 10 {
                decimals_have_digits(b / 10);
                assert(y.len() >= 2);
            } else {
                assert(x[0] == y[0]);
            }
        } else {
            if b < 10 {
                decimals_have_digits(a / 10);
                assert(x.len() >= 2);
            } else {
                assert(y.drop_last() =~= text::spec_decimal(b / 10));
                assert(x.last() == y.last());
            }
        }
    }
}

/// A decimal notation has a digit.
proof fn decimals_have_digits(a: nat)
    ensures
        text::spec_decimal(a).len() > 0,
{
}

/// Two texts that are split by the same character, which neither of their first parts holds, have
/// the same parts.
proof fn first_parts_agree(
    a: Seq<char>,
    rest: Seq<char>,
    b: Seq<char>,
    other: Seq<char>,
    c: char,
)
    requires
        a + seq![c] + rest == b + seq![c] + other,
        lacks(a, c),
        lacks(b, c),
    ensures
        a == b,
        rest == other,
{
    let x = a + seq![c] + rest;
    let y = b + seq![c] + other;
    assert(x[a.len() as int] == c);
    assert(y[b.len() as int] == c);
    if a.len() < b.len() {
        assert(y[a.len() as int] == b[a.len() as int]);
    } else if b.len() < a.len() {
        assert(x[b.len() as int] == a[b.len() as int]);
    }
    assert(a.len() == b.len());
    assert(x.take(a.len() as int) =~= a);
    assert(y.take(b.len() as int) =~= b);
    assert(x.skip(a.len() as int + 1) =~= rest);
    assert(y.skip(b.len() as int + 1) =~= other);
}

/// Two numbers before a colon agree where the texts do.
proof fn first_numbers_agree(a: nat, rest: Seq<char>, b: nat, other: Seq<char>)
    requires
        text::spec_decimal(a) + ":"@ + rest == text::spec_decimal(b) + ":"@ + other,
    ensures
        a == b,
        rest == other,
{
    reveal_strlit(":");
    assert(":"@ =~= seq![':']);
    decimals_are_unique(a, b);
    decimals_are_unique(b, a);
    first_parts_agree(text::spec_decimal(a), rest, text::spec_decimal(b), other, ':');
}

/// Texts can be joined in any order.
proof fn joined(a: Seq<char>, n: Seq<char>, c: Seq<char>, t: Seq<char>)
    ensures
        a + n + c + t == a + (n + c + t),
{
    assert(a + n + c + t =~= a + (n + c + t));
}

/// The settings of a session one by one, before a text.
spec fn settings_before(
    context_length: u32,
    configuration: RuntimeInferenceConfig,
    tail: Seq<char>,
) -> Seq<char> {
    text::spec_decimal(context_length as nat) + ":"@ + (text::spec_decimal(
        configuration.threads.generation as nat,
    ) + ":"@ + (text::spec_decimal(configuration.threads.batch as nat) + ":"@ + (text::spec_decimal(
        configuration.batch_sizes.logical as nat,
    ) + ":"@ + (text::spec_decimal(configuration.batch_sizes.physical as nat) + ":"@ + tail))))
}

/// The name of settings before a text, one by one.
proof fn settings_unfold(
    context_length: u32,
    configuration: RuntimeInferenceConfig,
    tail: Seq<char>,
)
    ensures
        settings_name(context_length, configuration) + ":"@ + tail == settings_before(
            context_length,
            configuration,
            tail,
        ),
{
    let n0 = text::spec_decimal(context_length as nat);
    let n1 = text::spec_decimal(configuration.threads.generation as nat);
    let n2 = text::spec_decimal(configuration.threads.batch as nat);
    let n3 = text::spec_decimal(configuration.batch_sizes.logical as nat);
    let n4 = text::spec_decimal(configuration.batch_sizes.physical as nat);
    let a1 = n0 + ":"@;
    let a2 = a1 + n1 + ":"@;
    let a3 = a2 + n2 + ":"@;
    let a4 = a3 + n3 + ":"@;
    let t4 = n4 + ":"@ + tail;
    let t3 = n3 + ":"@ + t4;
    let t2 = n2 + ":"@ + t3;
    joined(a4, n4, ":"@, tail);
    joined(a3, n3, ":"@, t4);
    joined(a2, n2, ":"@, t3);
    joined(a1, n1, ":"@, t2);
}

/// Names of settings agree before the same text only where the settings do.
proof fn settings_agree(
    context_length: u32,
    configuration: RuntimeInferenceConfig,
    other_context_length: u32,
    other_configuration: RuntimeInferenceConfig,
    tail: Seq<char>,
)
    requires
        settings_before(context_length, configuration, tail) == settings_before(
            other_context_length,
            other_configuration,
            tail,
        ),
    ensures
        context_length == other_context_length,
        configuration == other_configuration,
{
    let g = configuration.threads.generation as nat;
    let b = configuration.threads.batch as nat;
    let l = configuration.batch_sizes.logical as nat;
    let p = configuration.batch_sizes.physical as nat;
    let g2 = other_configuration.threads.generation as nat;
    let b2 = other_configuration.threads.batch as nat;
    let l2 = other_configuration.batch_sizes.logical as nat;
    let p2 = other_configuration.batch_sizes.physical as nat;
    let r4 = text::spec_decimal(p) + ":"@ + tail;
    let s4 = text::spec_decimal(p2) + ":"@ + tail;
    let r3 = text::spec_decimal(l) + ":"@ + r4;
    let s3 = text::spec_decimal(l2) + ":"@ + s4;
    let r2 = text::spec_decimal(b) + ":"@ + r3;
    let s2 = text::spec_decimal(b2) + ":"@ + s3;
    let r1 = text::spec_decimal(g) + ":"@ + r2;
    let s1 = text::spec_decimal(g2) + ":"@ + s2;
    first_numbers_agree(context_length as nat, r1, other_context_length as nat, s1);
    first_numbers_agree(g, r2, g2, s2);
    first_numbers_agree(b, r3, b2, s3);
    first_numbers_agree(l, r4, l2, s4);
    first_numbers_agree(p, tail, p2, tail);
}

/// Texts that agree after the same beginning are the same.
proof fn same_after(start: Seq<char>, a: Seq<char>, b: Seq<char>)
    requires
        start + a == start + b,
    ensures
        a == b,
{
    assert((start + a).skip(start.len() as int) =~= a);
    assert((start + b).skip(start.len() as int) =~= b);
}

/// Sessions for the same prompt on the same model are kept under different names where their
/// settings differ.
pub proof fn input_keys_separate_settings(
    model_id: Seq<char>,
    path: Seq<char>,
    prefix: Seq<char>,
    suffix: Seq<char>,
    context_length: u32,
    configuration: RuntimeInferenceConfig,
    other_context_length: u32,
    other_configuration: RuntimeInferenceConfig,
)
    requires
        spec_embedded_input_cache_key(
            model_id,
            path,
            context_length,
            configuration,
            prefix,
            suffix,
        ) == spec_embedded_input_cache_key(
            model_id,
            path,
            other_context_length,
            other_configuration,
            prefix,
            suffix,
        ),
    ensures
        context_length == other_context_length,
        configuration == other_configuration,
{
    let start = model_id + ":"@ + path + ":"@;
    let hash = digest::spec_encode_hex(digest::sha256(input_bytes(prefix, suffix)));
    let tail = "input:"@ + hash;
    let name = settings_name(context_length, configuration);
    let other = settings_name(other_context_length, other_configuration);
    assert(":input:"@ == ":"@ + "input:"@) by {
        reveal_strlit(":");
        reveal_strlit("input:");
        reveal_strlit(":input:");
        assert(":input:"@ =~= ":"@ + "input:"@);
    }
    assert(start + name + ":input:"@ + hash =~= start + (name + ":"@ + tail));
    assert(start + other + ":input:"@ + hash =~= start + (other + ":"@ + tail));
    same_after(start, name + ":"@ + tail, other + ":"@ + tail);
    settings_unfold(context_length, configuration, tail);
    settings_unfold(other_context_length, other_configuration, tail);
    settings_agree(
        context_length,
        configuration,
        other_context_length,
        other_configuration,
        tail,
    );
}

/// The session of the settings.
pub fn embedded_session_params(context_length: u32, configuration: RuntimeInferenceConfig) -> (r:
    SessionParams)
    ensures
        r == (SessionParams {
            n_ctx: context_length,
            n_batch: configuration.batch_sizes.logical,
            n_ubatch: configuration.batch_sizes.physical,
            n_threads: configuration.threads.generation,
            n_threads_batch: configuration.threads.batch,
        }),
{
    SessionParams {
        n_ctx: context_length,
        n_batch: configuration.batch_sizes.logical,
        n_ubatch: configuration.batch_sizes.physical,
        n_threads: configuration.threads.generation,
        n_threads_batch: configuration.threads.batch,
    }
}

/// Takes a prepared value out where it was prepared under the key; leaves another where it is.
pub fn take_matching_prepared_value<T>(prepared: &mut Option<(String, T)>, key: &str) -> (r: Option<
    T,
>)
    ensures
        match *old(prepared) {
            Some(kept) => if kept.0@ == key@ {
                r == Some(kept.1) && *final(prepared) is None
            } else {
                r is None && *final(prepared) == *old(prepared)
            },
            None => r is None && *final(prepared) is None,
        },
{
    let matches: bool = match &*prepared {
        Some(kept) => text::same(&kept.0, key),
        None => false,
    };
    if !matches {
        return None;
    }
    match prepared.take() {
        Some(kept) => Some(kept.1),
        None => None,
    }
}

/// What is kept after a value was stored: where there is no room for a new key, the first key in
/// order goes.
pub open spec fn after_store<T>(
    kept: Map<Seq<char>, T>,
    keys: Seq<Seq<char>>,
    key: Seq<char>,
    value: T,
) -> Map<Seq<char>, T> {
    if !kept.contains_key(key) && keys.len() >= MAX_PREPARED_PROMPT_SESSIONS {
        kept.remove(keys[0]).insert(key, value)
    } else {
        kept.insert(key, value)
    }
}

/// The sessions that have read the shared part of a prompt.
#[derive(Debug)]
pub struct PreparedSessions<T> {
    sessions: TextMap<T>,
}

impl<T> Default for PreparedSessions<T> {
    /// None are kept at first.
    fn default() -> (r: Self)
        ensures
            r@ == Map::<Seq<char>, T>::empty(),
    {
        PreparedSessions { sessions: TextMap::new() }
    }
}

impl<T> View for PreparedSessions<T> {
    type V = Map<Seq<char>, T>;

    closed spec fn view(&self) -> Map<Seq<char>, T> {
        self.sessions@
    }
}

impl<T> PreparedSessions<T> {
    /// Only so many are kept.
    #[verifier::type_invariant]
    spec fn well_formed(self) -> bool {
        self.sessions.keys().len() <= MAX_PREPARED_PROMPT_SESSIONS
    }

    /// The names in order.
    pub closed spec fn keys(&self) -> Seq<Seq<char>> {
        self.sessions.keys()
    }

    /// The number of sessions, which never exceeds what is kept. The names are in order.
    pub fn len(&self) -> (r: usize)
        ensures
            r == self.keys().len(),
            r <= MAX_PREPARED_PROMPT_SESSIONS,
            text_map::is_sorted(self.keys()),
            forall|key: Seq<char>| self@.contains_key(key) <==> self.keys().contains(key),
    {
        proof {
            use_type_invariant(self);
        }
        self.sessions.len()
    }

    /// Whether there is a session under the name.
    pub fn contains(&self, key: &str) -> (r: bool)
        ensures
            r == self@.contains_key(key@),
    {
        self.sessions.contains_key(key)
    }

    /// The session under the name, where there is one.
    pub fn get(&self, key: &str) -> (r: Option<&T>)
        ensures
            match r {
                Some(value) => self@.contains_key(key@) && *value == self@[key@],
                None => !self@.contains_key(key@),
            },
    {
        self.sessions.get(key)
    }

    /// Keeps a session under the name.
    pub fn store(&mut self, key: String, value: T)
        ensures
            final(self)@ == after_store(old(self)@, old(self).keys(), key@, value),
    {
        proof {
            use_type_invariant(&*self);
        }
        let mut sessions: TextMap<T> = TextMap::new();
        std::mem::swap(&mut sessions, &mut self.sessions);
        let total: usize = sessions.len();
        proof {
            text_map::keys_are_counted(sessions.keys(), sessions@);
        }
        if !sessions.contains_key(&key) && total >= MAX_PREPARED_PROMPT_SESSIONS {
            let oldest: String = sessions.key_at(0).clone();
            let dropped: Option<T> = sessions.remove(&oldest);
        }
        let replaced: Option<T> = sessions.insert(key, value);
        let kept: usize = sessions.len();
        proof {
            text_map::keys_are_counted(sessions.keys(), sessions@);
        }
        assert(kept <= MAX_PREPARED_PROMPT_SESSIONS);
        self.sessions = sessions;
    }
}

/// What a build of the engine needs of the processor.
#[derive(Debug, Clone, Copy, PartialEq, Eq, Structural)]
pub enum EmbeddedCpuEngine {
    Compatible,
    Avx2,
    Avx512,
}

/// What instructions the processor has.
pub type EmbeddedCpuCapabilities = CpuInstructionCapabilities;

/// The condition of [`embedded_cpu_engine_is_supported`].
pub open spec fn spec_embedded_cpu_engine_is_supported(
    engine: EmbeddedCpuEngine,
    capabilities: CpuInstructionCapabilities,
) -> bool {
    match engine {
        EmbeddedCpuEngine::Compatible => capabilities.sse42,
        EmbeddedCpuEngine::Avx2 => thread_tuning::has_avx2_profile(capabilities),
        EmbeddedCpuEngine::Avx512 => thread_tuning::has_avx512_profile(capabilities),
    }
}

/// Whether the processor has every instruction that the engine needs.
pub fn embedded_cpu_engine_is_supported(
    engine: EmbeddedCpuEngine,
    capabilities: EmbeddedCpuCapabilities,
) -> (r: bool)
    ensures
        r == spec_embedded_cpu_engine_is_supported(engine, capabilities),
{
    let compatible: bool = capabilities.sse42;
    let avx2: bool = compatible && capabilities.avx2 && capabilities.fma && capabilities.f16c
        && capabilities.bmi2;
    match engine {
        EmbeddedCpuEngine::Compatible => compatible,
        EmbeddedCpuEngine::Avx2 => avx2,
        EmbeddedCpuEngine::Avx512 => {
            avx2 && capabilities.avx512f && capabilities.avx512cd && capabilities.avx512bw
                && capabilities.avx512dq && capabilities.avx512vl
        },
    }
}

/// What the engine needs of the processor, in words.
pub open spec fn engine_requirement(engine: EmbeddedCpuEngine) -> Seq<char> {
    match engine {
        EmbeddedCpuEngine::Compatible => "SSE4.2"@,
        EmbeddedCpuEngine::Avx2 => "SSE4.2, AVX2, FMA, F16C, and BMI2"@,
        EmbeddedCpuEngine::Avx512 => {
            "SSE4.2, AVX2, FMA, F16C, BMI2, AVX512F, AVX512CD, AVX512BW, AVX512DQ, and AVX512VL"@
        },
    }
}

/// Checks that the processor has every instruction that the engine needs.
pub fn ensure_embedded_cpu_engine_is_supported(
    engine: EmbeddedCpuEngine,
    capabilities: EmbeddedCpuCapabilities,
) -> (r: Result<(), CompressionError>)
    ensures
        match r {
            Ok(_) => spec_embedded_cpu_engine_is_supported(engine, capabilities),
            Err(error) => !spec_embedded_cpu_engine_is_supported(engine, capabilities) && error@
                == error::ErrorView::Runtime(
                "this build requires "@ + engine_requirement(engine)
                    + "; select a compatible CPU engine"@,
            ),
        },
{
    if embedded_cpu_engine_is_supported(engine, capabilities) {
        return Ok(());
    }
    let requirement: &str = match engine {
        EmbeddedCpuEngine::Compatible => "SSE4.2",
        EmbeddedCpuEngine::Avx2 => "SSE4.2, AVX2, FMA, F16C, and BMI2",
        EmbeddedCpuEngine::Avx512 => {
            "SSE4.2, AVX2, FMA, F16C, BMI2, AVX512F, AVX512CD, AVX512BW, AVX512DQ, and AVX512VL"
        },
    };
    Err(
        CompressionError::Runtime(
            text::concat3(
                "this build requires ",
                requirement,
                "; select a compatible CPU engine",
            ),
        ),
    )
}

/// A processor that runs a wider engine runs every narrower one.
pub proof fn wider_engines_need_more(capabilities: CpuInstructionCapabilities)
    ensures
        spec_embedded_cpu_engine_is_supported(EmbeddedCpuEngine::Avx512, capabilities)
            ==> spec_embedded_cpu_engine_is_supported(EmbeddedCpuEngine::Avx2, capabilities),
        spec_embedded_cpu_engine_is_supported(EmbeddedCpuEngine::Avx2, capabilities)
            ==> spec_embedded_cpu_engine_is_supported(EmbeddedCpuEngine::Compatible, capabilities),
{
}

/// Sessions for the same prompt on the same model are kept under different names where their
/// settings differ, also where the input is not part of the name.
pub proof fn prompt_keys_separate_settings(
    model_id: Seq<char>,
    path: Seq<char>,
    prefix: Seq<char>,
    context_length: u32,
    configuration: RuntimeInferenceConfig,
    other_context_length: u32,
    other_configuration: RuntimeInferenceConfig,
)
    requires
        spec_embedded_prompt_cache_key(model_id, path, context_length, configuration, prefix)
            == spec_embedded_prompt_cache_key(
            model_id,
            path,
            other_context_length,
            other_configuration,
            prefix,
        ),
    ensures
        context_length == other_context_length,
        configuration == other_configuration,
{
    let start = model_id + ":"@ + path + ":"@;
    let tail = text::spec_decimal(spec_hash_of_prefix(prefix) as nat);
    let name = settings_name(context_length, configuration);
    let other = settings_name(other_context_length, other_configuration);
    assert(start + name + ":"@ + tail =~= start + (name + ":"@ + tail));
    assert(start + other + ":"@ + tail =~= start + (other + ":"@ + tail));
    same_after(start, name + ":"@ + tail, other + ":"@ + tail);
    settings_unfold(context_length, configuration, tail);
    settings_unfold(other_context_length, other_configuration, tail);
    settings_agree(
        context_length,
        configuration,
        other_context_length,
        other_configuration,
        tail,
    );
}

/// Models with the same name are kept apart by their paths, and models at the same path by their
/// names.
pub proof fn model_keys_separate_models(model_id: Seq<char>, path: Seq<char>, other: Seq<char>)
    ensures
        spec_embedded_model_cache_key(model_id, path) == spec_embedded_model_cache_key(
            model_id,
            other,
        ) ==> path == other,
        spec_embedded_model_cache_key(model_id, path) == spec_embedded_model_cache_key(other, path)
            ==> model_id == other,
{
    let tail = ":"@ + path;
    let key = spec_embedded_model_cache_key(model_id, path);
    if key == spec_embedded_model_cache_key(model_id, other) {
        same_after(model_id + ":"@, path, other);
    }
    if key == spec_embedded_model_cache_key(other, path) {
        assert(model_id + ":"@ + path =~= model_id + tail);
        assert(other + ":"@ + path =~= other + tail);
        assert(model_id.len() == other.len());
        assert(key.take(model_id.len() as int) =~= model_id);
        assert(key.take(model_id.len() as int) =~= other);
    }
}

/// A session that is stored is found. All others stay, but for one where three are kept already
/// and none of them has the name.
pub proof fn stored_sessions_are_found<T>(
    kept: Map<Seq<char>, T>,
    keys: Seq<Seq<char>>,
    key: Seq<char>,
    value: T,
    other: Seq<char>,
)
    requires
        other != key,
        keys.len() > 0 ==> kept.contains_key(keys[0]),
    ensures
        after_store(kept, keys, key, value).contains_key(key),
        after_store(kept, keys, key, value)[key] == value,
        kept.contains_key(key) || keys.len() < 3 ==> (after_store(
            kept,
            keys,
            key,
            value,
        ).contains_key(other) <==> kept.contains_key(other)),
        !kept.contains_key(key) && keys.len() >= 3 ==> (after_store(
            kept,
            keys,
            key,
            value,
        ).contains_key(other) <==> kept.contains_key(other) && other != keys[0]),
        after_store(kept, keys, key, value).contains_key(other) ==> after_store(
            kept,
            keys,
            key,
            value,
        )[other] == kept[other],
{
}

/// Engines run on processors that have what they are built for.
pub proof fn engines_need_what_they_are_built_for(capabilities: CpuInstructionCapabilities)
    ensures
        spec_embedded_cpu_engine_is_supported(EmbeddedCpuEngine::Compatible, capabilities)
            <==> capabilities.sse42,
        spec_embedded_cpu_engine_is_supported(EmbeddedCpuEngine::Avx2, capabilities)
            <==> capabilities.sse42 && capabilities.avx2 && capabilities.fma && capabilities.f16c
            && capabilities.bmi2,
        spec_embedded_cpu_engine_is_supported(EmbeddedCpuEngine::Avx512, capabilities)
            <==> capabilities.sse42 && capabilities.avx2 && capabilities.fma && capabilities.f16c
            && capabilities.bmi2 && capabilities.avx512f && capabilities.avx512cd
            && capabilities.avx512bw && capabilities.avx512dq && capabilities.avx512vl,
{
}

} // verus!
