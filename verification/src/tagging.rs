//! Learning tags from manual examples: when a tag can be trained, how many
//! negative examples it gets, and which automatic tags go stale.
use vstd::prelude::*;

use crate::error::DomainError;
use crate::filenames::trim_chars;
use crate::query::tag_names;
use crate::text::{decimal, decimal_chars, push_chars, push_str, str_chars, string_from_chars};

verus! {

/// Fewest manual examples (with features) a tag needs before it is trained.
pub const MIN_POSITIVES_FOR_TRAINING: usize = 3;

/// Fewest and most negative examples drawn for training.
pub const MIN_NEGATIVE_SAMPLES: usize = 50;

pub const MAX_NEGATIVE_SAMPLES: usize = 500;

/// Negative examples per positive one.
pub const NEGATIVES_PER_POSITIVE: usize = 10;

/// Counts of an auto-tagging run.
pub struct AutoTagResult {
    /// Automatic tags in scope before the run.
    pub before: usize,
    /// Automatic tags in scope after the run.
    pub after: usize,
    /// Tags that were trainable and retrained.
    pub models_processed: usize,
}

/// `Tag '<name>' is not used on any media items. Please tag at least 3 items manually first.`
pub open spec fn unused_tag_message(name: Seq<char>) -> Seq<char> {
    "Tag '"@ + name + "' is not used on any media items. Please tag at least "@ + decimal(
        MIN_POSITIVES_FOR_TRAINING as nat,
    ) + " items manually first."@
}

/// `Tag '<name>' only has <n> manual examples. Need at least 3 to train the AI.`
pub open spec fn too_few_examples_message(name: Seq<char>, n: nat) -> Seq<char> {
    "Tag '"@ + name + "' only has "@ + decimal(n) + " manual examples. Need at least "@ + decimal(
        MIN_POSITIVES_FOR_TRAINING as nat,
    ) + " to train the AI."@
}

/// `Tag '<name>' has <n> manual tags, but none of those images have AI features extracted yet. ...`
pub open spec fn no_features_message(name: Seq<char>, n: nat) -> Seq<char> {
    "Tag '"@ + name + "' has "@ + decimal(n)
        + " manual tags, but none of those images have AI features extracted yet. Please wait for processing to finish."@
}

/// `Tag '<name>' has <n> manual tags, but only <m> have AI features extracted. Need at least 3 ...`
pub open spec fn too_few_features_message(name: Seq<char>, n: nat, m: nat) -> Seq<char> {
    "Tag '"@ + name + "' has "@ + decimal(n) + " manual tags, but only "@ + decimal(m)
        + " have AI features extracted. Need at least "@ + decimal(MIN_POSITIVES_FOR_TRAINING as nat)
        + " items with features to train."@
}

/// `r` is an AI error with message `msg`.
pub open spec fn is_ai_error(r: Result<(), DomainError>, msg: Seq<char>) -> bool {
    match r {
        Err(DomainError::Ai(m)) => m@ == msg,
        _ => false,
    }
}

fn count_text(s: &mut String, n: usize)
    ensures
        final(s)@ == old(s)@ + decimal(n as nat),
{
    let d = decimal_chars(n as u64);
    push_chars(s, &d);
}

/// Whether a tag with `manual` manual examples may be trained; the error
/// says why not.
pub fn check_manual_examples(tag_name: &str, manual: usize) -> (r: Result<(), DomainError>)
    ensures
        manual >= MIN_POSITIVES_FOR_TRAINING <==> r is Ok,
        manual == 0 ==> is_ai_error(r, unused_tag_message(tag_name@)),
        0 < manual < MIN_POSITIVES_FOR_TRAINING ==> is_ai_error(
            r,
            too_few_examples_message(tag_name@, manual as nat),
        ),
{
    if manual == 0 {
        let mut m = String::new();
        push_str(&mut m, "Tag '");
        push_str(&mut m, tag_name);
        push_str(&mut m, "' is not used on any media items. Please tag at least ");
        count_text(&mut m, MIN_POSITIVES_FOR_TRAINING);
        push_str(&mut m, " items manually first.");
        proof {
            assert(m@ =~= unused_tag_message(tag_name@));
        }
        return Err(DomainError::Ai(m));
    }
    if manual < MIN_POSITIVES_FOR_TRAINING {
        let mut m = String::new();
        push_str(&mut m, "Tag '");
        push_str(&mut m, tag_name);
        push_str(&mut m, "' only has ");
        count_text(&mut m, manual);
        push_str(&mut m, " manual examples. Need at least ");
        count_text(&mut m, MIN_POSITIVES_FOR_TRAINING);
        push_str(&mut m, " to train the AI.");
        proof {
            assert(m@ =~= too_few_examples_message(tag_name@, manual as nat));
        }
        return Err(DomainError::Ai(m));
    }
    Ok(())
}

/// Whether enough of the `manual` examples have features (`with_features` of
/// them) for training; the error says why not.
pub fn check_feature_examples(tag_name: &str, manual: usize, with_features: usize) -> (r: Result<
    (),
    DomainError,
>)
    ensures
        with_features >= MIN_POSITIVES_FOR_TRAINING <==> r is Ok,
        with_features == 0 ==> is_ai_error(r, no_features_message(tag_name@, manual as nat)),
        0 < with_features < MIN_POSITIVES_FOR_TRAINING ==> is_ai_error(
            r,
            too_few_features_message(tag_name@, manual as nat, with_features as nat),
        ),
{
    if with_features == 0 {
        let mut m = String::new();
        push_str(&mut m, "Tag '");
        push_str(&mut m, tag_name);
        push_str(&mut m, "' has ");
        count_text(&mut m, manual);
        push_str(
            &mut m,
            " manual tags, but none of those images have AI features extracted yet. Please wait for processing to finish.",
        );
        proof {
            assert(m@ =~= no_features_message(tag_name@, manual as nat));
        }
        return Err(DomainError::Ai(m));
    }
    if with_features < MIN_POSITIVES_FOR_TRAINING {
        let mut m = String::new();
        push_str(&mut m, "Tag '");
        push_str(&mut m, tag_name);
        push_str(&mut m, "' has ");
        count_text(&mut m, manual);
        push_str(&mut m, " manual tags, but only ");
        count_text(&mut m, with_features);
        push_str(&mut m, " have AI features extracted. Need at least ");
        count_text(&mut m, MIN_POSITIVES_FOR_TRAINING);
        push_str(&mut m, " items with features to train.");
        proof {
            assert(m@ =~= too_few_features_message(tag_name@, manual as nat, with_features as nat));
        }
        return Err(DomainError::Ai(m));
    }
    Ok(())
}

/// Ten negatives per positive, at least 50 and at most 500.
pub open spec fn negative_count(positives: nat) -> nat {
    let n = positives * NEGATIVES_PER_POSITIVE;
    if n < MIN_NEGATIVE_SAMPLES {
        MIN_NEGATIVE_SAMPLES as nat
    } else if n > MAX_NEGATIVE_SAMPLES {
        MAX_NEGATIVE_SAMPLES as nat
    } else {
        n as nat
    }
}

/// How many negative examples to draw for `positives` positive ones.
pub fn negative_sample_count(positives: usize) -> (n: usize)
    requires
        positives * NEGATIVES_PER_POSITIVE <= usize::MAX,
    ensures
        n == negative_count(positives as nat),
{
    let n = positives * NEGATIVES_PER_POSITIVE;
    if n < MIN_NEGATIVE_SAMPLES {
        MIN_NEGATIVE_SAMPLES
    } else if n > MAX_NEGATIVE_SAMPLES {
        MAX_NEGATIVE_SAMPLES
    } else {
        n
    }
}

/// A tag with its number of manual uses.
pub struct TagUsage {
    pub id: i64,
    pub name: String,
    pub manual_count: usize,
}

pub open spec fn is_trainable(t: TagUsage) -> bool {
    t.manual_count >= MIN_POSITIVES_FOR_TRAINING
}

/// The tags with at least `MIN_POSITIVES_FOR_TRAINING` manual uses, in order.
pub open spec fn trainable_ids(tags: Seq<TagUsage>) -> Seq<i64>
    decreases tags.len(),
{
    if tags.len() == 0 {
        Seq::empty()
    } else if is_trainable(tags.last()) {
        trainable_ids(tags.drop_last()).push(tags.last().id)
    } else {
        trainable_ids(tags.drop_last())
    }
}

pub open spec fn trainable_names(tags: Seq<TagUsage>) -> Seq<Seq<char>>
    decreases tags.len(),
{
    if tags.len() == 0 {
        Seq::empty()
    } else if is_trainable(tags.last()) {
        trainable_names(tags.drop_last()).push(tags.last().name@)
    } else {
        trainable_names(tags.drop_last())
    }
}

/// The tags that can be trained, as `(id, name)` in the order given.
pub fn trainable_tags(tags: &Vec<TagUsage>) -> (r: Vec<(i64, String)>)
    ensures
        r@.map_values(|p: (i64, String)| p.0) == trainable_ids(tags@),
        r@.map_values(|p: (i64, String)| p.1@) == trainable_names(tags@),
{
    let mut r: Vec<(i64, String)> = Vec::new();
    let mut i: usize = 0;
    while i < tags.len()
        invariant
            i <= tags@.len(),
            r@.map_values(|p: (i64, String)| p.0) == trainable_ids(tags@.take(i as int)),
            r@.map_values(|p: (i64, String)| p.1@) == trainable_names(tags@.take(i as int)),
        decreases tags@.len() - i,
    {
        proof {
            assert(tags@.take(i + 1).drop_last() =~= tags@.take(i as int));
            assert(tags@.take(i + 1).last() == tags@[i as int]);
        }
        let t = &tags[i];
        if t.manual_count >= MIN_POSITIVES_FOR_TRAINING {
            let ghost before = r@;
            r.push((t.id, t.name.clone()));
            proof {
                assert(r@.map_values(|p: (i64, String)| p.0) =~= before.map_values(
                    |p: (i64, String)| p.0,
                ).push(t.id));
                assert(r@.map_values(|p: (i64, String)| p.1@) =~= before.map_values(
                    |p: (i64, String)| p.1@,
                ).push(t.name@));
            }
        }
        i = i + 1;
    }
    proof {
        assert(tags@.take(tags@.len() as int) =~= tags@);
    }
    r
}

/// The ids of `existing` that are not in `keep`, in order.
pub open spec fn stale_ids(existing: Seq<i64>, keep: Seq<i64>) -> Seq<i64>
    decreases existing.len(),
{
    if existing.len() == 0 {
        Seq::empty()
    } else if keep.contains(existing.last()) {
        stale_ids(existing.drop_last(), keep)
    } else {
        stale_ids(existing.drop_last(), keep).push(existing.last())
    }
}

fn contains_id(ids: &Vec<i64>, x: i64) -> (r: bool)
    ensures
        r == ids@.contains(x),
{
    let mut i: usize = 0;
    while i < ids.len()
        invariant
            i <= ids@.len(),
            forall|j: int| 0 <= j < i ==> ids@[j] != x,
        decreases ids@.len() - i,
    {
        if ids[i] == x {
            return true;
        }
        i = i + 1;
    }
    false
}

/// Tags that have automatic tags but are no longer trainable: their
/// automatic tags are cleared.
pub fn stale_auto_tags(existing_auto: &Vec<i64>, trainable: &Vec<i64>) -> (r: Vec<i64>)
    ensures
        r@ == stale_ids(existing_auto@, trainable@),
{
    let mut r: Vec<i64> = Vec::new();
    let mut i: usize = 0;
    while i < existing_auto.len()
        invariant
            i <= existing_auto@.len(),
            r@ == stale_ids(existing_auto@.take(i as int), trainable@),
        decreases existing_auto@.len() - i,
    {
        proof {
            assert(existing_auto@.take(i + 1).drop_last() =~= existing_auto@.take(i as int));
            assert(existing_auto@.take(i + 1).last() == existing_auto@[i as int]);
        }
        let id = existing_auto[i];
        if !contains_id(trainable, id) {
            r.push(id);
        }
        i = i + 1;
    }
    proof {
        assert(existing_auto@.take(existing_auto@.len() as int) =~= existing_auto@);
    }
    r
}

/// The result of a run over an empty scope: nothing is retrained.
pub fn empty_scope_result(before: usize) -> (r: AutoTagResult)
    ensures
        r.before == before,
        r.after == 0,
        r.models_processed == 0,
{
    AutoTagResult { before, after: 0, models_processed: 0 }
}

/// The name of tag `tag_id` for messages: the first candidate whose id is
/// `tag_id`, else `Unknown`.
pub open spec fn tag_name_of(tag_id: i64, candidates: Seq<(Seq<char>, Option<i64>)>) -> Seq<char>
    decreases candidates.len(),
{
    if candidates.len() == 0 {
        "Unknown"@
    } else if candidates[0].1 == Some(tag_id) {
        candidates[0].0
    } else {
        tag_name_of(tag_id, candidates.drop_first())
    }
}

pub open spec fn candidate_views(c: Seq<(String, Option<i64>)>) -> Seq<(Seq<char>, Option<i64>)> {
    c.map_values(|p: (String, Option<i64>)| (p.0@, p.1))
}

/// Looks up the name of `tag_id` among `(name, id)` pairs.
pub fn tag_name_for(tag_id: i64, candidates: &Vec<(String, Option<i64>)>) -> (name: String)
    ensures
        name@ == tag_name_of(tag_id, candidate_views(candidates@)),
{
    let ghost all = candidate_views(candidates@);
    let mut i: usize = 0;
    proof {
        assert(all.skip(0) =~= all);
    }
    while i < candidates.len()
        invariant
            i <= candidates@.len(),
            all == candidate_views(candidates@),
            tag_name_of(tag_id, all) == tag_name_of(tag_id, all.skip(i as int)),
        decreases candidates@.len() - i,
    {
        proof {
            assert(all.skip(i as int).drop_first() =~= all.skip(i + 1));
            assert(all.skip(i as int)[0] == (candidates@[i as int].0@, candidates@[i as int].1));
        }
        if candidates[i].1 == Some(tag_id) {
            return candidates[i].0.clone();
        }
        i = i + 1;
    }
    proof {
        assert(all.skip(i as int) =~= Seq::<(Seq<char>, Option<i64>)>::empty());
    }
    let mut u = String::new();
    push_str(&mut u, "Unknown");
    u
}

/// A trained tag never loses its automatic tags as stale, and every stale
/// tag had automatic tags.
pub proof fn law_stale_tags_are_untrainable(existing: Seq<i64>, keep: Seq<i64>)
    ensures
        forall|i: int| 0 <= i < stale_ids(existing, keep).len() ==> !keep.contains(
            #[trigger] stale_ids(existing, keep)[i],
        ) && existing.contains(stale_ids(existing, keep)[i]),
        forall|x: i64| existing.contains(x) && !keep.contains(x) ==> stale_ids(
            existing,
            keep,
        ).contains(x),
    decreases existing.len(),
{
    if existing.len() > 0 {
        let t = existing.drop_last();
        law_stale_tags_are_untrainable(t, keep);
        let s = stale_ids(existing, keep);
        let st = stale_ids(t, keep);
        assert forall|i: int| 0 <= i < s.len() implies !keep.contains(#[trigger] s[i])
            && existing.contains(s[i]) by {
            if i < st.len() {
                assert(s[i] == st[i]);
                let j = choose|j: int| 0 <= j < t.len() && t[j] == st[i];
                assert(existing[j] == t[j]);
            } else {
                assert(existing[existing.len() - 1] == existing.last());
            }
        }
        assert forall|x: i64| existing.contains(x) && !keep.contains(x) implies s.contains(x) by {
            let j = choose|j: int| 0 <= j < existing.len() && existing[j] == x;
            if j < existing.len() - 1 {
                assert(t[j] == x);
                let k = choose|k: int| 0 <= k < st.len() && st[k] == x;
                assert(s[k] == x);
            } else {
                assert(s[s.len() - 1] == x);
            }
        }
    }
}

/// The names a media item is tagged with: each given name trimmed, empty
/// ones dropped, in order.
pub fn clean_tag_names(names: &Vec<String>) -> (r: Vec<String>)
    ensures
        r@.map_values(|x: String| x@) == tag_names(names@.map_values(|x: String| x@)),
{
    let ghost all = names@.map_values(|x: String| x@);
    let mut r: Vec<String> = Vec::new();
    let mut i: usize = 0;
    while i < names.len()
        invariant
            i <= names@.len(),
            all == names@.map_values(|x: String| x@),
            r@.map_values(|x: String| x@) == tag_names(all.take(i as int)),
        decreases names@.len() - i,
    {
        proof {
            assert(all.take(i + 1).drop_last() =~= all.take(i as int));
            assert(all.take(i + 1).last() == names@[i as int]@);
        }
        let t = trim_chars(&str_chars(names[i].as_str()));
        if t.len() > 0 {
            let ghost before = r@.map_values(|x: String| x@);
            r.push(string_from_chars(&t));
            proof {
                assert(r@.map_values(|x: String| x@) =~= before.push(t@));
            }
        }
        i = i + 1;
    }
    proof {
        assert(all.take(names@.len() as int) =~= all);
    }
    r
}

} // verus!
