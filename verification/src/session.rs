//! Session state operations: overlaying starred and pending-deletion
//! flags onto a fresh listing, toggling stars, recording batch-deletion
//! outcomes, and marshalling the starred set for the presentation layer.

use vstd::prelude::*;
use vstd::string::*;
use crate::config::{AppConfig, ConfigStore, NameSet, saved_config};
use crate::model::{DeletionResult, ModelData, ModelView};
use crate::parse::{parse_listing, parse_ollama_output};
use crate::text::views_of;

verus! {

/// A record with the session's starred and pending-deletion marks set
/// from the two name sets; every other field untouched.
pub open spec fn overlaid(m: ModelView, st: Set<Seq<char>>, q: Set<Seq<char>>) -> ModelView {
    ModelView { is_starred: st.contains(m.name), is_queued_for_deletion: q.contains(m.name), ..m }
}

/// Marks each record as starred or queued for deletion according to the
/// session sets.
pub fn overlay_session_flags(models: Vec<ModelData>, starred: &NameSet, queue: &NameSet) -> (r:
    Vec<ModelData>)
    ensures
        r@.len() == models@.len(),
        forall|i: int|
            0 <= i < r@.len() ==> (#[trigger] r@[i])@ == overlaid(models@[i]@, starred@, queue@),
{
    let mut rest = models;
    let ghost orig = rest@;
    let mut r: Vec<ModelData> = Vec::new();
    while rest.len() > 0
        invariant
            r@.len() + rest@.len() == orig.len(),
            forall|i: int| 0 <= i < rest@.len() ==> #[trigger] rest@[i] == orig[r@.len() + i],
            forall|i: int|
                0 <= i < r@.len() ==> (#[trigger] r@[i])@ == overlaid(orig[i]@, starred@, queue@),
        decreases rest@.len(),
    {
        let mut m = rest.remove(0);
        let star = starred.contains_name(m.name.as_str());
        let queued = queue.contains_name(m.name.as_str());
        m.is_starred = star;
        m.is_queued_for_deletion = queued;
        r.push(m);
    }
    proof {
        assert(r@.len() == orig.len());
    }
    r
}

/// Parses a listing and overlays the session's marks on every record:
/// the computation behind a listing refresh.  Never fails; a caller that
/// could not obtain listing text has nothing to pass here.
pub fn process_listing(output: &str, starred: &NameSet, queue: &NameSet) -> (r: Result<
    Vec<ModelData>,
    String,
>)
    ensures
        r is Ok,
        r->Ok_0@.len() == parse_listing(output@).len(),
        forall|i: int|
            0 <= i < r->Ok_0@.len() ==> (#[trigger] r->Ok_0@[i])@ == overlaid(
                parse_listing(output@)[i],
                starred@,
                queue@,
            ),
{
    match parse_ollama_output(output) {
        Ok(models) => {
            proof {
                assert(forall|i: int|
                    0 <= i < models@.len() ==> (#[trigger] models@[i])@ == parse_listing(
                        output@,
                    )[i]);
            }
            Ok(overlay_session_flags(models, starred, queue))
        },
        Err(e) => Err(e),
    }
}

/// Adds or removes one name in the starred set and saves the preferences
/// with the new set overlaid.
pub fn toggle_star(
    store: &mut ConfigStore,
    starred: &mut NameSet,
    config: &AppConfig,
    model_name: &str,
    star: bool,
)
    requires
        old(store).wf(),
        old(starred).wf(),
        config.wf(),
    ensures
        final(store).wf(),
        final(starred).wf(),
        star ==> final(starred)@ == old(starred)@.insert(model_name@),
        !star ==> final(starred)@ == old(starred)@.remove(model_name@),
        exists|ts: Seq<char>|
            final(store)@ == Some(#[trigger] saved_config(config@, final(starred)@, ts)),
{
    if star {
        starred.insert(String::from_str(model_name));
    } else {
        starred.remove(model_name);
    }
    store.save(config, starred);
}

/// Records the outcome of one deletion attempt: a success removes the
/// name from the starred and pending-deletion sets and lists it as
/// deleted; a failure changes no set and lists it as failed.  Either way
/// the rest of the batch goes on.
pub fn record_delete_outcome(
    starred: &mut NameSet,
    queue: &mut NameSet,
    result: &mut DeletionResult,
    model_name: &str,
    deleted_ok: bool,
)
    requires
        old(starred).wf(),
        old(queue).wf(),
    ensures
        final(starred).wf(),
        final(queue).wf(),
        deleted_ok ==> final(starred)@ == old(starred)@.remove(model_name@) && final(queue)@
            == old(queue)@.remove(model_name@) && views_of(final(result).deleted@) == views_of(
            old(result).deleted@,
        ).push(model_name@) && final(result).failed@ == old(result).failed@,
        !deleted_ok ==> final(starred)@ == old(starred)@ && final(queue)@ == old(queue)@
            && views_of(final(result).failed@) == views_of(old(result).failed@).push(model_name@)
            && final(result).deleted@ == old(result).deleted@,
{
    if deleted_ok {
        queue.remove(model_name);
        starred.remove(model_name);
        result.deleted.push(String::from_str(model_name));
        proof {
            assert(views_of(result.deleted@) =~= views_of(old(result).deleted@).push(
                model_name@,
            ));
        }
    } else {
        result.failed.push(String::from_str(model_name));
        proof {
            assert(views_of(result.failed@) =~= views_of(old(result).failed@).push(model_name@));
        }
    }
}

/// The starred names as a list for the presentation layer: one entry per
/// starred model, in the set's stored order.
pub fn starred_name_list(starred: &NameSet) -> (r: Vec<String>)
    requires
        starred.wf(),
    ensures
        forall|i: int| 0 <= i < r@.len() ==> starred@.contains((#[trigger] r@[i])@),
        forall|x: Seq<char>|
            starred@.contains(x) ==> exists|i: int| 0 <= i < r@.len() && (#[trigger] r@[i])@ == x,
        forall|i: int, j: int|
            0 <= i < j < r@.len() ==> (#[trigger] r@[i])@ != (#[trigger] r@[j])@,
{
    starred.to_vec()
}

/// Replaces the starred set with the names of a list, repeats collapsing
/// into one entry.
pub fn replace_starred(starred: &mut NameSet, names: &Vec<String>)
    requires
        old(starred).wf(),
    ensures
        final(starred).wf(),
        forall|x: Seq<char>|
            final(starred)@.contains(x) <==> views_of(names@).contains(x),
{
    let mut ns = NameSet::new();
    let mut i: usize = 0;
    while i < names.len()
        invariant
            0 <= i <= names@.len(),
            ns.wf(),
            forall|x: Seq<char>| ns@.contains(x) <==> views_of(names@).take(i as int).contains(x),
        decreases names@.len() - i,
    {
        let ghost prev = ns@;
        ns.insert(names[i].clone());
        i += 1;
        proof {
            assert forall|x: Seq<char>|
                ns@.contains(x) <==> views_of(names@).take(i as int).contains(x) by {
                let tv = views_of(names@).take(i as int);
                assert(tv.drop_last() =~= views_of(names@).take(i - 1));
                if ns@.contains(x) {
                    if x == names@[i - 1]@ {
                        assert(tv[i - 1] == x);
                    } else {
                        assert(prev.contains(x));
                        let k = choose|k: int|
                            0 <= k < views_of(names@).take(i - 1).len() && (#[trigger] views_of(
                                names@,
                            ).take(i - 1)[k]) == x;
                        assert(tv[k] == x);
                    }
                }
                if tv.contains(x) {
                    let k = choose|k: int| 0 <= k < tv.len() && tv[k] == x;
                    if k == i - 1 {
                        assert(x == names@[i - 1]@);
                    } else {
                        assert(views_of(names@).take(i - 1)[k] == x);
                    }
                }
            }
        }
    }
    proof {
        assert(views_of(names@).take(names@.len() as int) =~= views_of(names@));
    }
    *starred = ns;
}

} // verus!
