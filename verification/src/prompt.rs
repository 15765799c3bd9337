use vstd::prelude::*;

use crate::candidates::lemma_deep_view_push;
use crate::error::Error;

verus! {

/// The interaction surface: four prompt primitives. The library drives it;
/// the surrounding binary implements it over a terminal prompt crate, and
/// tests implement it with deterministic fakes. A choice prompt is never
/// given an empty option list together with the "other" fallback: the engine
/// falls back to free text instead.
pub trait Prompt {
    /// A single free-text prompt.
    fn text(&self, key: &str) -> Result<String, Error>;

    /// Repeated free-text prompts, terminated by an empty answer; returns
    /// the non-empty answers in order.
    fn multi_text(&self, key: &str) -> Result<Vec<String>, Error>;

    /// A single-choice prompt. With `allow_other`, a distinguished sentinel
    /// option is offered whose selection is replaced by follow-up free text.
    fn select(&self, key: &str, options: Vec<String>, allow_other: bool) -> Result<String, Error>
        requires
            allow_other ==> options@.len() > 0,
    ;

    /// A multiple-choice prompt. With `allow_other`, selecting the sentinel
    /// appends follow-up free-text entries in its place.
    fn multi_select(&self, key: &str, options: Vec<String>, allow_other: bool) -> Result<
        Vec<String>,
        Error,
    >
        requires
            allow_other ==> options@.len() > 0,
    ;
}

/// The distinguished entry appended to a choice list when a free-text
/// fallback is allowed.
pub open spec fn other_sentinel() -> Seq<char> {
    "<other>"@
}

/// The sentinel's literal form.
pub fn other_label() -> (r: &'static str)
    ensures
        r@ == other_sentinel(),
{
    "<other>"
}

/// Appends the sentinel to a choice list.
pub fn options_with_other(options: Vec<String>) -> (r: Vec<String>)
    ensures
        r.deep_view() == options.deep_view().push(other_sentinel()),
{
    let mut r = options;
    let ghost pre = r;
    let label = other_label().to_owned();
    r.push(label);
    proof {
        lemma_deep_view_push(pre, r, label);
    }
    r
}

/// Tests whether a single choice is the sentinel, in which case the caller
/// replaces it by follow-up free text.
pub fn is_other_choice(value: &String) -> (r: bool)
    ensures
        r == (value@ == other_sentinel()),
{
    let o = other_label().to_owned();
    *value == o
}

/// What a single-choice prompt with an "other" fallback resolves to, given
/// the raw choice and the follow-up text typed after the sentinel.
pub open spec fn resolved_choice(choice: Seq<char>, followup: Seq<char>) -> Seq<char> {
    if choice == other_sentinel() {
        followup
    } else {
        choice
    }
}

/// Law: choosing the sentinel resolves to exactly the subsequently-typed
/// free text; the sentinel literal itself never survives unless it is what
/// the user typed.
pub proof fn lemma_other_round_trip(choice: Seq<char>, followup: Seq<char>)
    ensures
        choice == other_sentinel() ==> resolved_choice(choice, followup) == followup,
        followup != other_sentinel() && choice == other_sentinel() ==> resolved_choice(
            choice,
            followup,
        ) != other_sentinel(),
{
}

/// One step of repeated free-text collection: an empty answer stops the
/// collection, a non-empty answer is appended and collection continues.
pub fn multi_text_step(values: &mut Vec<String>, answer: String) -> (done: bool)
    ensures
        done == (answer@.len() == 0),
        done ==> final(values).deep_view() == old(values).deep_view(),
        !done ==> final(values).deep_view() == old(values).deep_view().push(answer@),
{
    if answer.as_str().is_empty() {
        true
    } else {
        let ghost pre = *values;
        values.push(answer);
        proof {
            lemma_deep_view_push(pre, *values, answer);
        }
        false
    }
}

/// Splits a multi-choice answer into the real selections, kept in order,
/// and whether the sentinel was among them.
pub fn remove_other(values: Vec<String>) -> (r: (Vec<String>, bool))
    ensures
        r.0.deep_view() == values.deep_view().filter(|v: Seq<char>| v != other_sentinel()),
        r.1 == values.deep_view().contains(other_sentinel()),
{
    broadcast use Seq::lemma_filter_push;

    let ghost dv = values.deep_view();
    let ghost pred = |v: Seq<char>| v != other_sentinel();
    let mut kept: Vec<String> = Vec::new();
    let mut had = false;
    let mut i: usize = 0;
    proof {
        assert(dv.take(0) =~= Seq::<Seq<char>>::empty());
        assert(kept.deep_view() =~= Seq::<Seq<char>>::empty());
        assert(dv.take(0).filter(pred) =~= Seq::<Seq<char>>::empty()) by {
            reveal_with_fuel(Seq::filter, 1);
        }
        assert(!dv.take(0).contains(other_sentinel()));
    }
    while i < values.len()
        invariant
            i as int <= dv.len(),
            values.deep_view() == dv,
            values@.len() == dv.len(),
            kept.deep_view() == dv.take(i as int).filter(pred),
            pred == (|v: Seq<char>| v != other_sentinel()),
            had == dv.take(i as int).contains(other_sentinel()),
        decreases dv.len() - i,
    {
        let x = values[i].clone();
        proof {
            assert(x@ == values@[i as int]@);
            assert(dv[i as int] == values@[i as int]@);
            assert(dv.take(i as int + 1) =~= dv.take(i as int).push(dv[i as int]));
            dv.take(i as int).lemma_filter_push(dv[i as int], pred);
        }
        if is_other_choice(&x) {
            had = true;
            proof {
                assert(dv.take(i as int + 1)[i as int] == other_sentinel());
                assert(dv.take(i as int + 1).contains(other_sentinel()));
            }
        } else {
            let ghost pre = kept;
            kept.push(x);
            proof {
                lemma_deep_view_push(pre, kept, x);
                let t1 = dv.take(i as int + 1);
                let t0 = dv.take(i as int);
                assert(t1.contains(other_sentinel()) == t0.contains(other_sentinel())) by {
                    if t0.contains(other_sentinel()) {
                        let j = choose|j: int| 0 <= j < t0.len() && #[trigger] t0[j]
                            == other_sentinel();
                        assert(t1[j] == other_sentinel());
                        assert(t1.contains(other_sentinel()));
                    }
                    if t1.contains(other_sentinel()) {
                        let j = choose|j: int| 0 <= j < t1.len() && #[trigger] t1[j]
                            == other_sentinel();
                        assert(j != i as int);
                        assert(t0[j] == other_sentinel());
                        assert(t0.contains(other_sentinel()));
                    }
                }
            }
        }
        i = i + 1;
    }
    proof {
        assert(dv.take(dv.len() as int) =~= dv);
    }
    (kept, had)
}

} // verus!
