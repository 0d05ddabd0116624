//! Parsing the runtime's tabular listing.  The first line is a header;
//! every later line with at least four whitespace tokens yields one
//! classified record, and any other line is dropped silently.

use vstd::prelude::*;
use vstd::string::*;
use crate::classify::{age_category_of, caps_of, duplicate_of, liberated_of, special_variant_of, analyze_model_variants, determine_capabilities, get_age_category, is_liberated_model};
use crate::model::{ModelData, ModelView, models_views};
use crate::text::{join_from, join_sp, lines_of, lower_of, split_lines, split_ws_tokens, tokens_of, views_of};

verus! {

/// The classified record one listing line yields, given the records
/// already produced earlier in the same pass.
pub open spec fn record_of(toks: Seq<Seq<char>>, prior: Seq<ModelView>) -> ModelView
    recommends
        toks.len() >= 4,
{
    let name = toks[0];
    let modified = join_sp(toks.skip(4));
    ModelView {
        name: name,
        id: toks[1],
        size: toks[2] + seq![' '] + toks[3],
        modified: modified,
        age_category: age_category_of(modified),
        capabilities: caps_of(lower_of(name)),
        is_liberated: liberated_of(lower_of(name)),
        is_starred: false,
        is_queued_for_deletion: false,
        is_duplicate: duplicate_of(name, prior),
        is_special_variant: special_variant_of(name),
        usage_info: None,
    }
}

/// One parsing step: a line with at least four tokens appends its record,
/// any other line is dropped.
pub open spec fn parse_step(acc: Seq<ModelView>, line: Seq<char>) -> Seq<ModelView> {
    let toks = tokens_of(line);
    if toks.len() >= 4 {
        acc.push(record_of(toks, acc))
    } else {
        acc
    }
}

/// The records of the first `n` data lines.
pub open spec fn parse_upto(lines: Seq<Seq<char>>, n: int) -> Seq<ModelView>
    decreases n,
{
    if n <= 0 {
        Seq::empty()
    } else {
        parse_step(parse_upto(lines, n - 1), lines[n - 1])
    }
}

/// The records of a whole listing: every line after the header, in order.
pub open spec fn parse_listing(s: Seq<char>) -> Seq<ModelView> {
    let ls = lines_of(s);
    if ls.len() == 0 {
        Seq::empty()
    } else {
        parse_upto(ls.drop_first(), ls.len() - 1)
    }
}

/// Parses the listing text into classified records.  Parsing itself never
/// fails: malformed lines are dropped, not reported.
pub fn parse_ollama_output(output: &str) -> (r: Result<Vec<ModelData>, String>)
    ensures
        r is Ok,
        models_views(r->Ok_0@) == parse_listing(output@),
{
    let lines = split_lines(output);
    let mut models: Vec<ModelData> = Vec::new();
    if lines.len() == 0 {
        proof {
            assert(models_views(models@) =~= parse_listing(output@));
        }
        return Ok(models);
    }
    let ghost data = lines_of(output@).drop_first();
    let mut li: usize = 1;
    while li < lines.len()
        invariant
            1 <= li <= lines@.len(),
            views_of(lines@) == lines_of(output@),
            data == lines_of(output@).drop_first(),
            models_views(models@) == parse_upto(data, li - 1),
        decreases lines@.len() - li,
    {
        let ghost prior = models_views(models@);
        let ghost lv = lines@[li as int]@;
        let toks = split_ws_tokens(lines[li].as_str());
        let ghost tv = views_of(toks@);
        proof {
            assert(views_of(lines@)[li as int] == lines@[li as int]@);
            assert(data[li - 1] == lines_of(output@)[li as int]);
            assert(tv == tokens_of(lv));
            assert(parse_upto(data, li as int) == parse_step(parse_upto(data, li - 1), lv));
        }
        if toks.len() >= 4 {
            let name = toks[0].clone();
            let id = toks[1].clone();
            let size = toks[2].clone().concat(" ").concat(toks[3].as_str());
            let modified = join_from(&toks, 4);
            let age_category = get_age_category(modified.as_str());
            let capabilities = determine_capabilities(name.as_str());
            let is_liberated = is_liberated_model(name.as_str());
            let flags = analyze_model_variants(name.as_str(), &models);
            let m = ModelData {
                name,
                id,
                size,
                modified,
                age_category,
                capabilities,
                is_liberated,
                is_starred: false,
                is_queued_for_deletion: false,
                is_duplicate: flags.0,
                is_special_variant: flags.1,
                usage_info: None,
            };
            models.push(m);
            proof {
                reveal_strlit(" ");
                assert(tv[0] == toks@[0]@ && tv[1] == toks@[1]@ && tv[2] == toks@[2]@ && tv[3]
                    == toks@[3]@);
                assert(m@.size =~= tv[2] + seq![' '] + tv[3]);
                assert(m@.modified == join_sp(tv.skip(4)));
                assert(m@ == record_of(tv, prior));
                assert(models_views(models@) =~= prior.push(m@));
            }
        } else {
            proof {
                assert(tokens_of(lv).len() < 4);
            }
        }
        li += 1;
    }
    proof {
        assert(data.len() == lines@.len() - 1);
        assert(parse_listing(output@) == parse_upto(data, data.len() as int));
    }
    Ok(models)
}

/// The data lines a parse keeps: exactly those with at least four tokens.
pub open spec fn kept_lines(lines: Seq<Seq<char>>) -> Seq<Seq<char>> {
    lines.filter(|l: Seq<char>| tokens_of(l).len() >= 4)
}

/// Parsing is lossless for well-formed lines: the records of the first `n`
/// data lines are exactly the lines among them with at least four tokens,
/// in order, and record `k` carries the name, id, and both size fields of
/// the `k`-th such line over unchanged.  Lines with fewer tokens yield no
/// record at all.
pub proof fn lemma_parse_lossless(lines: Seq<Seq<char>>, n: int)
    requires
        0 <= n <= lines.len(),
    ensures
        parse_upto(lines, n).len() == kept_lines(lines.take(n)).len(),
        forall|k: int|
            0 <= k < parse_upto(lines, n).len() ==> {
                let toks = tokens_of(kept_lines(lines.take(n))[k]);
                let r = #[trigger] parse_upto(lines, n)[k];
                toks.len() >= 4 && r.name == toks[0] && r.id == toks[1] && r.size == toks[2]
                    + seq![' '] + toks[3] && r.modified == join_sp(toks.skip(4))
            },
    decreases n,
{
    reveal(Seq::filter);
    if n > 0 {
        lemma_parse_lossless(lines, n - 1);
        let line = lines[n - 1];
        assert(lines.take(n).drop_last() =~= lines.take(n - 1));
        assert(lines.take(n).last() == line);
        let prev = parse_upto(lines, n - 1);
        let kprev = kept_lines(lines.take(n - 1));
        if tokens_of(line).len() >= 4 {
            assert(kept_lines(lines.take(n)) == kprev.push(line));
            assert(parse_upto(lines, n) == prev.push(record_of(tokens_of(line), prev)));
            assert forall|k: int| 0 <= k < parse_upto(lines, n).len() implies {
                let toks = tokens_of(kept_lines(lines.take(n))[k]);
                let r = #[trigger] parse_upto(lines, n)[k];
                toks.len() >= 4 && r.name == toks[0] && r.id == toks[1] && r.size == toks[2]
                    + seq![' '] + toks[3] && r.modified == join_sp(toks.skip(4))
            } by {
                if k < prev.len() {
                    assert(parse_upto(lines, n)[k] == prev[k]);
                    assert(kept_lines(lines.take(n))[k] == kprev[k]);
                } else {
                    assert(parse_upto(lines, n)[k] == record_of(tokens_of(line), prev));
                    assert(kept_lines(lines.take(n))[k] == line);
                }
            }
        } else {
            assert(kept_lines(lines.take(n)) == kprev);
            assert(parse_upto(lines, n) == prev);
        }
    } else {
        assert(lines.take(0) =~= Seq::<Seq<char>>::empty());
    }
}

} // verus!
