//! Reduction of program text to its instruction characters.
use vstd::prelude::*;

verus! {

/// Pattern matching each character that is not one of the eight instructions.
pub const NON_INSTRUCTION: &'static str = r"[^.,<>\]\[+-]";

/// The eight instruction characters.
pub open spec fn is_instruction(c: char) -> bool {
    c == '>' || c == '<' || c == '+' || c == '-' || c == '.' || c == ',' || c == '['
        || c == ']'
}

/// `s` with every non-instruction character removed, order kept.
pub open spec fn sanitized(s: Seq<char>) -> Seq<char> {
    s.filter(|c: char| is_instruction(c))
}

/// Relies on `regex::Regex::new` and `regex::Regex::replace_all`: the class
/// `[^.,<>\]\[+-]` compiles, and replacing each of its matches with the empty
/// string removes every character outside the eight instructions while keeping
/// the others in order.
#[verifier::external_body]
fn remove_matches(pattern: &str, text: &str) -> (r: String)
    requires
        pattern@ == NON_INSTRUCTION@,
    ensures
        r@ == sanitized(text@),
{
    regex::Regex::new(pattern).unwrap().replace_all(text, "").into_owned()
}

/// Strips every character that is not an instruction from program text.
pub fn cleanup_program(text: &str) -> (r: String)
    ensures
        r@ == sanitized(text@),
{
    remove_matches(NON_INSTRUCTION, text)
}

proof fn lemma_filter_keeps_all(s: Seq<char>, pred: spec_fn(char) -> bool)
    requires
        forall|i: int| 0 <= i < s.len() ==> pred(#[trigger] s[i]),
    ensures
        s.filter(pred) == s,
    decreases s.len(),
{
    reveal(Seq::filter);
    if s.len() > 0 {
        lemma_filter_keeps_all(s.drop_last(), pred);
        assert(s.drop_last().push(s.last()) =~= s);
    }
}

proof fn lemma_filter_drops_all(s: Seq<char>, pred: spec_fn(char) -> bool)
    requires
        forall|i: int| 0 <= i < s.len() ==> !pred(#[trigger] s[i]),
    ensures
        s.filter(pred) == Seq::<char>::empty(),
    decreases s.len(),
{
    reveal(Seq::filter);
    if s.len() > 0 {
        lemma_filter_drops_all(s.drop_last(), pred);
    }
}

/// Sanitizing text that is already sanitized leaves it unchanged.
pub proof fn lemma_sanitize_idempotent(s: Seq<char>)
    ensures
        sanitized(sanitized(s)) == sanitized(s),
{
    let pred = |c: char| is_instruction(c);
    let t = s.filter(pred);
    assert forall|i: int| 0 <= i < t.len() implies pred(#[trigger] t[i]) by {
        s.lemma_filter_pred(pred, i);
    }
    lemma_filter_keeps_all(t, pred);
}

/// Non-instruction characters inserted anywhere into program text do not
/// change its sanitized form, so they never affect execution.
pub proof fn lemma_noise_is_ignored(before: Seq<char>, noise: Seq<char>, after: Seq<char>)
    requires
        forall|i: int| 0 <= i < noise.len() ==> !is_instruction(#[trigger] noise[i]),
    ensures
        sanitized(before + noise + after) == sanitized(before + after),
{
    let pred = |c: char| is_instruction(c);
    lemma_filter_drops_all(noise, pred);
    Seq::filter_distributes_over_add(before + noise, after, pred);
    Seq::filter_distributes_over_add(before, noise, pred);
    Seq::filter_distributes_over_add(before, after, pred);
    assert(before.filter(pred) + Seq::<char>::empty() =~= before.filter(pred));
}

} // verus!
