//! Comparing strings and filtering their characters.

use vstd::prelude::*;
use vstd::string::*;

verus! {

/// What `char::is_alphanumeric` returns for a character.
pub uninterp spec fn is_alphanumeric_char(c: char) -> bool;

/// Calls `char::is_alphanumeric`. Believed, not proved: the result is a
/// function of the character alone.
#[verifier::external_body]
fn is_alphanumeric(c: char) -> (b: bool)
    ensures
        b == is_alphanumeric_char(c),
{
    c.is_alphanumeric()
}

/// Calls `String::push`. Believed, not proved: the character is appended
/// and nothing else changes.
#[verifier::external_body]
fn push_char(s: &mut String, c: char)
    ensures
        final(s)@ == old(s)@.push(c),
{
    s.push(c)
}

/// The alphanumeric characters of a string, in their order.
pub open spec fn alphanumeric_only(s: Seq<char>) -> Seq<char> {
    s.filter(|c: char| is_alphanumeric_char(c))
}

/// Whether two string slices hold the same characters.
pub fn same_text(a: &str, b: &str) -> (r: bool)
    ensures
        r == (a@ == b@),
{
    let x = a.to_owned();
    let y = b.to_owned();
    x == y
}

/// A copy of the string without its non-alphanumeric characters.
pub fn keep_alphanumeric(s: &str) -> (kept: String)
    ensures
        kept@ == alphanumeric_only(s@),
{
    let mut kept = String::new();
    proof {
        reveal(Seq::filter);
        assert(s@.take(0) =~= Seq::<char>::empty());
    }
    for c in it: s.chars()
        invariant
            it.seq() == s@,
            kept@ == alphanumeric_only(s@.take(it.index() as int)),
    {
        proof {
            let done = it.index() as int;
            assert(s@.take(done + 1) =~= s@.take(done).push(c));
            s@.take(done).lemma_filter_push(c, |c: char| is_alphanumeric_char(c));
        }
        if is_alphanumeric(c) {
            push_char(&mut kept, c);
        }
    }
    proof {
        assert(s@.take(s@.len() as int) =~= s@);
    }
    kept
}

/// The strings as they are matched: unchanged, or each without its
/// non-alphanumeric characters if the filter is on.
pub fn prepare_strings(strings: &Vec<String>, alpha_num_chars_only: bool) -> (prepared: Vec<
    String,
>)
    ensures
        prepared.len() == strings.len(),
        forall|i: int|
            0 <= i < strings.len() ==> (#[trigger] prepared@[i])@ == if alpha_num_chars_only {
                alphanumeric_only(strings@[i]@)
            } else {
                strings@[i]@
            },
{
    let mut prepared: Vec<String> = Vec::new();
    let mut i: usize = 0;
    while i < strings.len()
        invariant
            i <= strings.len(),
            prepared.len() == i,
            forall|j: int|
                0 <= j < i ==> (#[trigger] prepared@[j])@ == if alpha_num_chars_only {
                    alphanumeric_only(strings@[j]@)
                } else {
                    strings@[j]@
                },
        decreases strings.len() - i,
    {
        let next = if alpha_num_chars_only {
            keep_alphanumeric(strings[i].as_str())
        } else {
            strings[i].clone()
        };
        prepared.push(next);
        i += 1;
    }
    prepared
}

} // verus!
