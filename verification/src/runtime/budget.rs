//! How many tokens a model may write, and how many it must be able to hold.
use vstd::prelude::*;
use crate::config::catalog::ModelDefinition;
use crate::error;
use crate::error::CompressionError;
use crate::text;
use crate::types::CompressionRequest;

verus! {

/// The sizes of contexts that are made for a request, from the smallest on.
pub const EMBEDDED_CONTEXT_LENGTH_TIERS: [u32; 3] = [1024, 2048, 4096];

/// The tokens that are left free in every context.
pub const CONTEXT_SAFETY_MARGIN: usize = 8;

/// The most tokens that the answer of a level has.
pub open spec fn level_cap(level: int) -> int {
    if level == 0 {
        16
    } else if level == 1 {
        112
    } else if level == 2 {
        192
    } else {
        96
    }
}

/// Three times a number, or the greatest number of 32 bits.
pub open spec fn spec_tripled(n: int) -> int {
    if 3 * n > u32::MAX {
        u32::MAX as int
    } else {
        3 * n
    }
}

/// The most tokens that the answer to a request of so many characters has.
pub open spec fn input_scaled_cap(level: int, characters: int) -> int {
    if level == 0 {
        16
    } else if level == 1 {
        spec_tripled(characters) / 4 + 32
    } else if level == 2 {
        spec_tripled(characters) / 5 + 32
    } else {
        characters / 2 + 24
    }
}

/// The smaller of two numbers.
pub open spec fn smaller(a: int, b: int) -> int {
    if a <= b {
        a
    } else {
        b
    }
}

/// The greater of two numbers.
pub open spec fn greater(a: int, b: int) -> int {
    if a >= b {
        a
    } else {
        b
    }
}

/// The most tokens that a model writes for a request of so many characters: what the model and the
/// level allow, scaled to the request but at least 64, and never below 32. Characters are counted
/// in 32 bits.
pub open spec fn output_cap(level: int, characters: int, default_max_output: int) -> int {
    greater(
        32,
        smaller(
            smaller(default_max_output, level_cap(level)),
            greater(64, input_scaled_cap(level, characters % 0x1_0000_0000)),
        ),
    )
}

/// Value of [`effective_max_output_tokens`].
pub open spec fn spec_effective_max_output_tokens(
    level: u8,
    input: Seq<char>,
    default_max_output: u32,
) -> int {
    output_cap(level as int, text::spec_trim(input).len() as int, default_max_output as int)
}

/// Three times a number, or the greatest number of 32 bits.
fn tripled(n: u32) -> (r: u32)
    ensures
        r == spec_tripled(n as int),
{
    match n.checked_mul(3) {
        Some(product) => product,
        None => u32::MAX,
    }
}

/// The smaller of two numbers.
fn smaller_of(a: u32, b: u32) -> (r: u32)
    ensures
        r == smaller(a as int, b as int),
{
    if a <= b {
        a
    } else {
        b
    }
}

/// The greater of two numbers.
fn greater_of(a: u32, b: u32) -> (r: u32)
    ensures
        r == greater(a as int, b as int),
{
    if a >= b {
        a
    } else {
        b
    }
}

/// A count in 32 bits.
fn low_bits(n: usize) -> (r: u32)
    ensures
        r == n as int % 0x1_0000_0000,
{
    let wide: u64 = n as u64;
    assert(wide as u32 == wide % 0x1_0000_0000) by (bit_vector);
    #[verifier::truncate]
    (wide as u32)
}

/// The most tokens that the model writes for the request.
pub fn effective_max_output_tokens(request: &CompressionRequest, model: &ModelDefinition) -> (r:
    u32)
    ensures
        r == spec_effective_max_output_tokens(
            request@.level,
            request@.input_text,
            model@.default_max_output,
        ),
{
    let level: u8 = request.compression_level.value();
    let level_limit: u32 = match level {
        0 => 16,
        1 => 112,
        2 => 192,
        _ => 96,
    };
    let characters: u32 = low_bits(text::char_count(&text::trim(&request.input_text)));
    let scaled_limit: u32 = match level {
        0 => 16,
        1 => tripled(characters) / 4 + 32,
        2 => tripled(characters) / 5 + 32,
        _ => characters / 2 + 24,
    };
    greater_of(
        32,
        smaller_of(
            smaller_of(model.default_max_output, level_limit),
            greater_of(64, scaled_limit),
        ),
    )
}

/// However long the request is, and whatever the model allows, at least 32 tokens may be written
/// and at most 192.
pub proof fn output_cap_is_bounded(level: int, characters: int, default_max_output: int)
    ensures
        32 <= output_cap(level, characters, default_max_output) <= 192,
{
}

/// The strongest compression may not write more than the weakest, for the same request.
pub proof fn stronger_compression_writes_no_more(characters: int, default_max_output: int)
    requires
        characters >= 0,
    ensures
        output_cap(3, characters, default_max_output) <= output_cap(
            1,
            characters,
            default_max_output,
        ),
{
}

/// A longer request may be answered with at least as many tokens, as long as its characters can be
/// counted in 32 bits.
pub proof fn longer_requests_may_be_answered_longer(
    level: int,
    shorter: int,
    longer: int,
    default_max_output: int,
)
    requires
        0 <= shorter <= longer < 0x1_0000_0000,
    ensures
        output_cap(level, shorter, default_max_output) <= output_cap(
            level,
            longer,
            default_max_output,
        ),
{
    assert(shorter % 0x1_0000_0000 == shorter);
    assert(longer % 0x1_0000_0000 == longer);
}

/// A sum of counts, or the greatest count.
pub open spec fn capped_sum(a: int, b: int) -> int {
    if a + b > usize::MAX {
        usize::MAX as int
    } else {
        a + b
    }
}

/// The tokens that a context must hold for a prompt and its answer.
pub open spec fn required_tokens(prompt_tokens: int, max_output_tokens: int) -> int {
    capped_sum(capped_sum(prompt_tokens, max_output_tokens), CONTEXT_SAFETY_MARGIN as int)
}

/// The error for a prompt that leaves no room for its answer.
pub open spec fn exceeded_context(
    prompt_tokens: int,
    max_output_tokens: int,
    context_length: int,
) -> Seq<char> {
    "input exceeds the model context: prompt="@ + text::spec_decimal_of(prompt_tokens)
        + " tokens, output reserve="@ + text::spec_decimal_of(max_output_tokens)
        + " tokens, context="@ + text::spec_decimal_of(context_length)
        + " tokens; shorten the input or split it into smaller requests"@
}

/// Checks that a context holds a prompt and its answer.
pub fn validate_prompt_token_budget(
    prompt_tokens: usize,
    max_output_tokens: usize,
    context_length: usize,
) -> (r: Result<(), CompressionError>)
    ensures
        match r {
            Ok(_) => required_tokens(prompt_tokens as int, max_output_tokens as int)
                <= context_length,
            Err(error) => required_tokens(prompt_tokens as int, max_output_tokens as int)
                > context_length && error@ == error::ErrorView::Runtime(
                exceeded_context(
                    prompt_tokens as int,
                    max_output_tokens as int,
                    context_length as int,
                ),
            ),
        },
{
    let required: usize = prompt_tokens.saturating_add(max_output_tokens).saturating_add(
        CONTEXT_SAFETY_MARGIN,
    );
    if required > context_length {
        let start: String = text::concat5(
            "input exceeds the model context: prompt=",
            &text::decimal_of(prompt_tokens),
            " tokens, output reserve=",
            &text::decimal_of(max_output_tokens),
            " tokens, context=",
        );
        Err(
            CompressionError::Runtime(
                text::concat3(
                    &start,
                    &text::decimal_of(context_length),
                    " tokens; shorten the input or split it into smaller requests",
                ),
            ),
        )
    } else {
        Ok(())
    }
}

/// The first size from a position on that holds the tokens and that the model can have.
pub open spec fn fitting_tier(tiers: Seq<u32>, i: int, required: int, model_context_length: int) -> Option<
    u32,
>
    decreases tiers.len() - i,
{
    if i >= tiers.len() {
        None
    } else if required <= tiers[i] <= model_context_length {
        Some(tiers[i])
    } else {
        fitting_tier(tiers, i + 1, required, model_context_length)
    }
}

/// The context that is made for a prompt and its answer.
pub open spec fn selected_context(
    prompt_tokens: int,
    max_output_tokens: int,
    model_context_length: int,
) -> int {
    match fitting_tier(
        EMBEDDED_CONTEXT_LENGTH_TIERS@,
        0,
        required_tokens(prompt_tokens, max_output_tokens),
        model_context_length,
    ) {
        Some(tier) => tier as int,
        None => model_context_length % 0x1_0000_0000,
    }
}

/// The context that is made for a prompt and its answer, where the model can hold them.
pub fn select_context_length_for_token_budget(
    prompt_tokens: usize,
    max_output_tokens: usize,
    model_context_length: usize,
) -> (r: Result<u32, CompressionError>)
    ensures
        match r {
            Ok(selected) => required_tokens(prompt_tokens as int, max_output_tokens as int)
                <= model_context_length && selected == selected_context(
                prompt_tokens as int,
                max_output_tokens as int,
                model_context_length as int,
            ),
            Err(error) => required_tokens(prompt_tokens as int, max_output_tokens as int)
                > model_context_length && error@ == error::ErrorView::Runtime(
                exceeded_context(
                    prompt_tokens as int,
                    max_output_tokens as int,
                    model_context_length as int,
                ),
            ),
        },
{
    match validate_prompt_token_budget(prompt_tokens, max_output_tokens, model_context_length) {
        Ok(_) => {},
        Err(error) => {
            return Err(error);
        },
    }
    let required: usize = prompt_tokens.saturating_add(max_output_tokens).saturating_add(
        CONTEXT_SAFETY_MARGIN,
    );
    let ghost tiers = EMBEDDED_CONTEXT_LENGTH_TIERS@;
    let mut i: usize = 0;
    while i < EMBEDDED_CONTEXT_LENGTH_TIERS.len()
        invariant
            i <= tiers.len(),
            tiers == EMBEDDED_CONTEXT_LENGTH_TIERS@,
            required == required_tokens(prompt_tokens as int, max_output_tokens as int),
            required <= model_context_length,
            fitting_tier(tiers, 0, required as int, model_context_length as int) == fitting_tier(
                tiers,
                i as int,
                required as int,
                model_context_length as int,
            ),
        decreases tiers.len() - i,
    {
        let tier: u32 = EMBEDDED_CONTEXT_LENGTH_TIERS[i];
        if tier as usize >= required && tier as usize <= model_context_length {
            return Ok(tier);
        }
        i = i + 1;
    }
    Ok(low_bits(model_context_length))
}

/// A tier that is found fits, and those before it do not.
proof fn fitting_tier_is_first(
    tiers: Seq<u32>,
    i: int,
    required: int,
    model_context_length: int,
    j: int,
)
    requires
        0 <= i <= j < tiers.len(),
    ensures
        match fitting_tier(tiers, i, required, model_context_length) {
            Some(tier) => required <= tier <= model_context_length && (required <= tiers[j]
                <= model_context_length ==> exists|k: int|
                i <= k <= j && tiers[k] == tier),
            None => !(required <= tiers[j] <= model_context_length),
        },
    decreases tiers.len() - i,
{
    if !(required <= tiers[i] <= model_context_length) {
        if i < j {
            fitting_tier_is_first(tiers, i + 1, required, model_context_length, j);
        } else if i + 1 < tiers.len() {
            fitting_tier_is_first(tiers, i + 1, required, model_context_length, i + 1);
        }
    }
}

/// The context that is made holds the prompt and its answer, does not exceed that of the model, and
/// is the smallest of the usual sizes that does so, where one does.
pub proof fn selected_context_fits(
    prompt_tokens: int,
    max_output_tokens: int,
    model_context_length: int,
)
    requires
        required_tokens(prompt_tokens, max_output_tokens) <= model_context_length <= u32::MAX,
        0 <= prompt_tokens,
        0 <= max_output_tokens,
    ensures
        ({
            let selected = selected_context(prompt_tokens, max_output_tokens, model_context_length);
            let required = required_tokens(prompt_tokens, max_output_tokens);
            &&& required <= selected <= model_context_length
            &&& forall|j: int|
                #![trigger EMBEDDED_CONTEXT_LENGTH_TIERS@[j]]
                0 <= j < 3 && required <= EMBEDDED_CONTEXT_LENGTH_TIERS@[j] <= model_context_length
                    ==> selected <= EMBEDDED_CONTEXT_LENGTH_TIERS@[j]
        }),
{
    let tiers = EMBEDDED_CONTEXT_LENGTH_TIERS@;
    let required = required_tokens(prompt_tokens, max_output_tokens);
    assert(model_context_length % 0x1_0000_0000 == model_context_length);
    fitting_tier_is_first(tiers, 0, required, model_context_length, 0);
    fitting_tier_is_first(tiers, 0, required, model_context_length, 1);
    fitting_tier_is_first(tiers, 0, required, model_context_length, 2);
    assert(tiers[0] == 1024 && tiers[1] == 2048 && tiers[2] == 4096);
}

/// A request that names no level of compression is answered by 32 tokens. At the other levels a
/// long request may be answered by 112, 192 and 96 tokens where the model may write that many.
pub proof fn caps_of_levels(characters: int, default_max_output: int)
    requires
        0 <= characters < 0x1_0000_0000,
    ensures
        output_cap(0, characters, default_max_output) == 32,
        characters >= 107 && default_max_output >= 112 ==> output_cap(
            1,
            characters,
            default_max_output,
        ) == 112,
        characters >= 267 && default_max_output >= 192 ==> output_cap(
            2,
            characters,
            default_max_output,
        ) == 192,
        characters >= 144 && default_max_output >= 96 ==> output_cap(
            3,
            characters,
            default_max_output,
        ) == 96,
{
    assert(characters % 0x1_0000_0000 == characters);
}

/// A shorter request is answered by at most three quarters, three fifths or half of its characters
/// and a reserve, and never by fewer than 64 tokens, where the model may write that many.
pub proof fn caps_follow_the_length(characters: int, default_max_output: int)
    requires
        0 <= characters,
        default_max_output >= 192,
    ensures
        characters <= 42 ==> output_cap(1, characters, default_max_output) == 64,
        43 <= characters <= 107 ==> output_cap(1, characters, default_max_output) == 3 * characters
            / 4 + 32,
        characters <= 53 ==> output_cap(2, characters, default_max_output) == 64,
        54 <= characters <= 267 ==> output_cap(2, characters, default_max_output) == 3 * characters
            / 5 + 32,
        characters <= 80 ==> output_cap(3, characters, default_max_output) == 64,
        80 <= characters <= 145 ==> output_cap(3, characters, default_max_output) == characters / 2
            + 24,
{
    assert(characters < 0x1_0000_0000 ==> characters % 0x1_0000_0000 == characters);
}

/// A model that may write fewer tokens writes no more than it may, but for the least of 32.
pub proof fn caps_of_models(level: int, characters: int, default_max_output: int)
    ensures
        output_cap(level, characters, default_max_output) <= default_max_output || output_cap(
            level,
            characters,
            default_max_output,
        ) == 32,
{
}

/// A context holds the prompt, the answer and eight tokens more.
pub proof fn contexts_hold_prompt_and_answer(prompt_tokens: int, max_output_tokens: int)
    requires
        0 <= prompt_tokens,
        0 <= max_output_tokens,
        prompt_tokens + max_output_tokens + 8 <= usize::MAX,
    ensures
        required_tokens(prompt_tokens, max_output_tokens) == prompt_tokens + max_output_tokens + 8,
{
}

/// The least of the contexts of 1024, 2048 and 4096 tokens is selected that holds prompt and answer
/// and is no greater than that of the model. Where none does, that of the model is.
pub proof fn contexts_are_selected(
    prompt_tokens: int,
    max_output_tokens: int,
    model_context_length: int,
)
    requires
        0 <= prompt_tokens,
        0 <= max_output_tokens,
        prompt_tokens + max_output_tokens + 8 <= model_context_length <= u32::MAX,
    ensures
        ({
            let needed = prompt_tokens + max_output_tokens + 8;
            let selected = selected_context(prompt_tokens, max_output_tokens, model_context_length);
            &&& needed <= 1024 <= model_context_length ==> selected == 1024
            &&& 1024 < needed <= 2048 <= model_context_length ==> selected == 2048
            &&& 2048 < needed <= 4096 <= model_context_length ==> selected == 4096
            &&& needed > 4096 ==> selected == model_context_length
            &&& model_context_length < 1024 ==> selected == model_context_length
        }),
{
    let tiers = EMBEDDED_CONTEXT_LENGTH_TIERS@;
    assert(tiers[0] == 1024 && tiers[1] == 2048 && tiers[2] == 4096);
    assert(tiers.len() == 3);
    assert(model_context_length % 0x1_0000_0000 == model_context_length);
    reveal_with_fuel(fitting_tier, 4);
}

} // verus!
