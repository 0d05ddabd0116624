//! Classification of model records: age bucket, capability tags, liberation
//! flag, base-name/parameter split, special-variant and duplicate flags.
//! Every rule is keyword matching over the lower-cased name or the free-text
//! modification column.

use vstd::prelude::*;
use vstd::string::*;
use crate::model::{AgeCategory, Capability, ModelData, ModelView, models_views};
use crate::num::{i32_of_text, parse_i32};
use crate::text::{contains_seq, contains_sub, find_ch, find_char, lower_of, lowercase, split_ws_tokens, tokens_of, views_of};

verus! {

/// The leading whitespace token of `m`, read as an integer, if both exist.
pub open spec fn leading_int(m: Seq<char>) -> Option<int> {
    if tokens_of(m).len() == 0 {
        None
    } else {
        i32_of_text(tokens_of(m)[0])
    }
}

/// The age bucket of a free-text modification column: day counts up to 14
/// are recent and up to 28 moderate; week counts up to 2 are recent and up
/// to 4 moderate; any month count is old; anything unclear is recent.
pub open spec fn age_category_of(m: Seq<char>) -> AgeCategory {
    if contains_seq(m, "day"@) {
        match leading_int(m) {
            Some(d) => if d <= 14 {
                AgeCategory::Recent
            } else if d <= 28 {
                AgeCategory::Moderate
            } else {
                AgeCategory::Old
            },
            None => AgeCategory::Recent,
        }
    } else if contains_seq(m, "week"@) {
        match leading_int(m) {
            Some(w) => if w <= 2 {
                AgeCategory::Recent
            } else if w <= 4 {
                AgeCategory::Moderate
            } else {
                AgeCategory::Old
            },
            None => AgeCategory::Recent,
        }
    } else if contains_seq(m, "month"@) {
        AgeCategory::Old
    } else {
        AgeCategory::Recent
    }
}

/// Buckets the modification column by age.
pub fn get_age_category(modified_str: &str) -> (r: AgeCategory)
    ensures
        r == age_category_of(modified_str@),
{
    if contains_sub(modified_str, "day") {
        let toks = split_ws_tokens(modified_str);
        if toks.len() == 0 {
            return AgeCategory::Recent;
        }
        proof {
            assert(views_of(toks@)[0] == toks@[0]@);
        }
        match parse_i32(toks[0].as_str()) {
            Some(d) => if d <= 14 {
                AgeCategory::Recent
            } else if d <= 28 {
                AgeCategory::Moderate
            } else {
                AgeCategory::Old
            },
            None => AgeCategory::Recent,
        }
    } else if contains_sub(modified_str, "week") {
        let toks = split_ws_tokens(modified_str);
        if toks.len() == 0 {
            return AgeCategory::Recent;
        }
        proof {
            assert(views_of(toks@)[0] == toks@[0]@);
        }
        match parse_i32(toks[0].as_str()) {
            Some(w) => if w <= 2 {
                AgeCategory::Recent
            } else if w <= 4 {
                AgeCategory::Moderate
            } else {
                AgeCategory::Old
            },
            None => AgeCategory::Recent,
        }
    } else if contains_sub(modified_str, "month") {
        AgeCategory::Old
    } else {
        AgeCategory::Recent
    }
}

/// Keywords marking vision capability.
pub open spec fn has_vision_kw(low: Seq<char>) -> bool {
    contains_seq(low, "vision"@) || contains_seq(low, "vl"@) || contains_seq(low, "visual"@)
        || contains_seq(low, "llava"@) || contains_seq(low, "clip"@)
}

/// Keywords marking code capability.
pub open spec fn has_code_kw(low: Seq<char>) -> bool {
    contains_seq(low, "code"@) || contains_seq(low, "coder"@) || contains_seq(low, "coding"@)
}

/// Keyword marking embedding capability.
pub open spec fn has_embed_kw(low: Seq<char>) -> bool {
    contains_seq(low, "embed"@)
}

/// Keywords marking tool-use capability.
pub open spec fn has_tools_kw(low: Seq<char>) -> bool {
    contains_seq(low, "tool"@) || contains_seq(low, "function"@) || contains_seq(low, "agent"@)
}

/// Keywords marking reasoning capability.
pub open spec fn has_reasoning_kw(low: Seq<char>) -> bool {
    contains_seq(low, "r1"@) || contains_seq(low, "reasoning"@) || contains_seq(low, "think"@)
}

/// The capability tags of a lower-cased name: text always, the others when
/// their keyword group matches, in a fixed order.
pub open spec fn caps_of(low: Seq<char>) -> Seq<Capability> {
    seq![Capability::Text] + (if has_vision_kw(low) {
        seq![Capability::Vision]
    } else {
        Seq::empty()
    }) + (if has_code_kw(low) {
        seq![Capability::Code]
    } else {
        Seq::empty()
    }) + (if has_embed_kw(low) {
        seq![Capability::Embed]
    } else {
        Seq::empty()
    }) + (if has_tools_kw(low) {
        seq![Capability::Tools]
    } else {
        Seq::empty()
    }) + (if has_reasoning_kw(low) {
        seq![Capability::Reasoning]
    } else {
        Seq::empty()
    })
}

/// Derives the capability tags from the model name.
pub fn determine_capabilities(model_name: &str) -> (caps: Vec<Capability>)
    ensures
        caps@ == caps_of(lower_of(model_name@)),
{
    let lowered = lowercase(model_name);
    let low = lowered.as_str();
    let mut caps: Vec<Capability> = Vec::new();
    caps.push(Capability::Text);
    if contains_sub(low, "vision") || contains_sub(low, "vl") || contains_sub(low, "visual")
        || contains_sub(low, "llava") || contains_sub(low, "clip") {
        caps.push(Capability::Vision);
    }
    if contains_sub(low, "code") || contains_sub(low, "coder") || contains_sub(low, "coding") {
        caps.push(Capability::Code);
    }
    if contains_sub(low, "embed") {
        caps.push(Capability::Embed);
    }
    if contains_sub(low, "tool") || contains_sub(low, "function") || contains_sub(low, "agent") {
        caps.push(Capability::Tools);
    }
    if contains_sub(low, "r1") || contains_sub(low, "reasoning") || contains_sub(low, "think") {
        caps.push(Capability::Reasoning);
    }
    proof {
        assert(caps@ =~= caps_of(lower_of(model_name@)));
    }
    caps
}

/// Membership in a concatenation splits into membership in either part.
proof fn lemma_contains_add<A>(a: Seq<A>, b: Seq<A>, x: A)
    ensures
        (a + b).contains(x) <==> a.contains(x) || b.contains(x),
{
    if (a + b).contains(x) {
        let i = choose|i: int| 0 <= i < (a + b).len() && (a + b)[i] == x;
        if i < a.len() {
            assert(a[i] == x);
        } else {
            assert(b[i - a.len()] == x);
        }
    }
    if a.contains(x) {
        let i = choose|i: int| 0 <= i < a.len() && a[i] == x;
        assert((a + b)[i] == x);
    }
    if b.contains(x) {
        let i = choose|i: int| 0 <= i < b.len() && b[i] == x;
        assert((a + b)[a.len() + i] == x);
    }
}

/// Capability tagging is order-independent across keyword groups: a tag is
/// present exactly when its own keyword group matches the lower-cased name,
/// whatever the other groups say, and the text tag is always present.
pub proof fn lemma_capability_membership(low: Seq<char>, x: Capability)
    ensures
        caps_of(low).contains(x) <==> match x {
            Capability::Text => true,
            Capability::Vision => has_vision_kw(low),
            Capability::Code => has_code_kw(low),
            Capability::Embed => has_embed_kw(low),
            Capability::Tools => has_tools_kw(low),
            Capability::Reasoning => has_reasoning_kw(low),
        },
{
    let t = seq![Capability::Text];
    let v = if has_vision_kw(low) {
        seq![Capability::Vision]
    } else {
        Seq::<Capability>::empty()
    };
    let c = if has_code_kw(low) {
        seq![Capability::Code]
    } else {
        Seq::<Capability>::empty()
    };
    let e = if has_embed_kw(low) {
        seq![Capability::Embed]
    } else {
        Seq::<Capability>::empty()
    };
    let to = if has_tools_kw(low) {
        seq![Capability::Tools]
    } else {
        Seq::<Capability>::empty()
    };
    let r = if has_reasoning_kw(low) {
        seq![Capability::Reasoning]
    } else {
        Seq::<Capability>::empty()
    };
    lemma_contains_add(t + v + c + e + to, r, x);
    lemma_contains_add(t + v + c + e, to, x);
    lemma_contains_add(t + v + c, e, x);
    lemma_contains_add(t + v, c, x);
    lemma_contains_add(t, v, x);
    assert(t[0] == Capability::Text);
    if has_vision_kw(low) {
        assert(v[0] == Capability::Vision);
    }
    if has_code_kw(low) {
        assert(c[0] == Capability::Code);
    }
    if has_embed_kw(low) {
        assert(e[0] == Capability::Embed);
    }
    if has_tools_kw(low) {
        assert(to[0] == Capability::Tools);
    }
    if has_reasoning_kw(low) {
        assert(r[0] == Capability::Reasoning);
    }
}

/// Keywords denoting an uncensored or unrestricted variant.
pub open spec fn liberated_of(low: Seq<char>) -> bool {
    contains_seq(low, "uncensored"@) || contains_seq(low, "abliterated"@) || contains_seq(
        low,
        "art"@,
    ) || contains_seq(low, "unfiltered"@) || contains_seq(low, "raw"@) || contains_seq(
        low,
        "nsfw"@,
    ) || contains_seq(low, "freedom"@) || contains_seq(low, "libre"@) || contains_seq(
        low,
        "unleashed"@,
    ) || contains_seq(low, "unlimited"@) || contains_seq(low, "dpo"@) || contains_seq(
        low,
        "rogue"@,
    ) || contains_seq(low, "wild"@) || contains_seq(low, "rebel"@) || contains_seq(low, "free"@)
}

/// Whether the name marks the model as a liberated variant.
pub fn is_liberated_model(model_name: &str) -> (r: bool)
    ensures
        r == liberated_of(lower_of(model_name@)),
{
    let lowered = lowercase(model_name);
    let low = lowered.as_str();
    contains_sub(low, "uncensored") || contains_sub(low, "abliterated") || contains_sub(
        low,
        "art",
    ) || contains_sub(low, "unfiltered") || contains_sub(low, "raw") || contains_sub(low, "nsfw")
        || contains_sub(low, "freedom") || contains_sub(low, "libre") || contains_sub(
        low,
        "unleashed",
    ) || contains_sub(low, "unlimited") || contains_sub(low, "dpo") || contains_sub(low, "rogue")
        || contains_sub(low, "wild") || contains_sub(low, "rebel") || contains_sub(low, "free")
}

/// The base name: everything before the first colon, lower-cased; the
/// whole name lower-cased when there is no colon.
pub open spec fn base_name_of(n: Seq<char>) -> Seq<char> {
    if find_ch(n, ':') >= 0 {
        lower_of(n.take(find_ch(n, ':')))
    } else {
        lower_of(n)
    }
}

/// The parameter tag: everything after the first colon, lower-cased;
/// empty when there is no colon.
pub open spec fn params_of(n: Seq<char>) -> Seq<char> {
    if find_ch(n, ':') >= 0 {
        lower_of(n.skip(find_ch(n, ':') + 1))
    } else {
        Seq::empty()
    }
}

/// The duplicate-grouping key of a model name.
pub fn get_model_base_name(model_name: &str) -> (r: String)
    ensures
        r@ == base_name_of(model_name@),
{
    match find_char(model_name, ':') {
        Some(i) => {
            let head = model_name.substring_char(0, i);
            proof {
                assert(head@ =~= model_name@.take(i as int));
            }
            lowercase(head)
        },
        None => lowercase(model_name),
    }
}

/// The parameter tag of a model name.
pub fn get_model_params(model_name: &str) -> (r: String)
    ensures
        r@ == params_of(model_name@),
{
    let len = model_name.unicode_len();
    match find_char(model_name, ':') {
        Some(i) => {
            let tail = model_name.substring_char(i + 1, len);
            proof {
                assert(tail@ =~= model_name@.skip(i as int + 1));
            }
            lowercase(tail)
        },
        None => String::new(),
    }
}

/// Parameter-tag keywords that make a model a meaningful variant rather
/// than a duplicate.
pub open spec fn special_variant_of(n: Seq<char>) -> bool {
    params_of(n).len() > 0 && (contains_seq(params_of(n), "instruct"@) || contains_seq(
        params_of(n),
        "chat"@,
    ) || contains_seq(params_of(n), "code"@) || contains_seq(params_of(n), "vision"@)
        || contains_seq(params_of(n), "embed"@) || contains_seq(params_of(n), "text"@)
        || contains_seq(params_of(n), "a3b"@) || contains_seq(params_of(n), "dpo"@)
        || contains_seq(params_of(n), "ift"@) || contains_seq(params_of(n), "sft"@)
        || contains_seq(params_of(n), "rlhf"@) || contains_seq(params_of(n), "tool"@)
        || contains_seq(params_of(n), "function"@) || contains_seq(params_of(n), "reasoning"@)
        || contains_seq(params_of(n), "uncensored"@) || contains_seq(params_of(n), "abliterated"@)
        || contains_seq(params_of(n), "art"@) || contains_seq(params_of(n), "base"@))
}

/// Whether the parameter tag marks a meaningful variant.
pub fn is_special_variant(model_name: &str) -> (r: bool)
    ensures
        r == special_variant_of(model_name@),
{
    let params = get_model_params(model_name);
    if params.as_str().is_empty() {
        return false;
    }
    let p = params.as_str();
    contains_sub(p, "instruct") || contains_sub(p, "chat") || contains_sub(p, "code")
        || contains_sub(p, "vision") || contains_sub(p, "embed") || contains_sub(p, "text")
        || contains_sub(p, "a3b") || contains_sub(p, "dpo") || contains_sub(p, "ift")
        || contains_sub(p, "sft") || contains_sub(p, "rlhf") || contains_sub(p, "tool")
        || contains_sub(p, "function") || contains_sub(p, "reasoning") || contains_sub(
        p,
        "uncensored",
    ) || contains_sub(p, "abliterated") || contains_sub(p, "art") || contains_sub(p, "base")
}

/// A record is a duplicate when it is no meaningful variant itself and an
/// earlier record in the same pass shares its base name without being a
/// meaningful variant either.
pub open spec fn duplicate_of(n: Seq<char>, prior: Seq<ModelView>) -> bool {
    !special_variant_of(n) && exists|i: int|
        0 <= i < prior.len() && base_name_of((#[trigger] prior[i]).name) == base_name_of(n)
            && !prior[i].is_special_variant
}

/// Flags a name against the records already classified in this pass:
/// duplicate first, meaningful-variant second.
pub fn analyze_model_variants(model_name: &str, existing_models: &Vec<ModelData>) -> (r: (
    bool,
    bool,
))
    ensures
        r.0 == duplicate_of(model_name@, models_views(existing_models@)),
        r.1 == special_variant_of(model_name@),
{
    let is_special = is_special_variant(model_name);
    let base = get_model_base_name(model_name);
    let ghost prior = models_views(existing_models@);
    if !is_special {
        let mut i: usize = 0;
        while i < existing_models.len()
            invariant
                0 <= i <= existing_models@.len(),
                prior == models_views(existing_models@),
                base@ == base_name_of(model_name@),
                is_special == special_variant_of(model_name@),
                !is_special,
                forall|j: int|
                    0 <= j < i ==> !(base_name_of((#[trigger] prior[j]).name) == base_name_of(
                        model_name@,
                    ) && !prior[j].is_special_variant),
            decreases existing_models@.len() - i,
        {
            let eb = get_model_base_name(existing_models[i].name.as_str());
            proof {
                assert(prior[i as int] == existing_models@[i as int]@);
            }
            if base.eq(&eb) && !existing_models[i].is_special_variant {
                proof {
                    assert(base_name_of(prior[i as int].name) == base_name_of(model_name@));
                    assert(!prior[i as int].is_special_variant);
                }
                return (true, is_special);
            }
            i += 1;
        }
        (false, is_special)
    } else {
        (false, is_special)
    }
}

} // verus!
