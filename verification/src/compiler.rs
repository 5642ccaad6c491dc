//! The names of the archive files that are compiled.

use crate::text::{hex_text, upper_hex};
use std::collections::hash_map::DefaultHasher;
use std::hash::Hash;
use std::hash::Hasher;
use vstd::prelude::*;
use vstd::string::StrSliceExecFns;
use vstd::string::StringExecFns;

verus! {

/// Where the word that starts at `i` ends: the index of the next space, or
/// the length of `name` where there is none.
pub open spec fn element_end(name: Seq<char>, i: int) -> int
    decreases name.len() - i,
{
    if i < 0 || i >= name.len() || name[i] == ' ' {
        i
    } else {
        element_end(name, i + 1)
    }
}

/// What a word gives to the abbreviation: its first two characters, if it
/// takes more than one byte; nothing else.
pub open spec fn abbreviated(element: Seq<char>) -> Seq<char> {
    if element.len() >= 2 {
        element.subrange(0, 2)
    } else if element.len() == 1 && element[0] as u32 >= 0x80 {
        element
    } else {
        Seq::empty()
    }
}

/// The abbreviation of the words of `name` from index `i` on, where a word
/// starts at `i`.
pub open spec fn abbreviation(name: Seq<char>, i: int) -> Seq<char>
    decreases name.len() - i,
{
    if i < 0 || i > name.len() {
        Seq::empty()
    } else {
        proof {
            lemma_element_end(name, i);
        }
        let end = element_end(name, i);
        abbreviated(name.subrange(i, end)) + if end < name.len() {
            abbreviation(name, end + 1)
        } else {
            Seq::empty()
        }
    }
}

/// A word ends at or after its start, inside the name, at a space or at
/// the end; and there is no space in it.
pub proof fn lemma_element_end(name: Seq<char>, i: int)
    requires
        0 <= i <= name.len(),
    ensures
        i <= element_end(name, i) <= name.len(),
        element_end(name, i) < name.len() ==> name[element_end(name, i)] == ' ',
        forall|k: int| i <= k < element_end(name, i) ==> name[k] != ' ',
    decreases name.len() - i,
{
    if i < name.len() && name[i] != ' ' {
        lemma_element_end(name, i + 1);
    }
}

/// The end of a word is where a scan that starts at `i` stops.
pub proof fn lemma_element_end_is(name: Seq<char>, i: int, end: int)
    requires
        0 <= i <= end <= name.len(),
        forall|k: int| i <= k < end ==> name[k] != ' ',
        end < name.len() ==> name[end] == ' ',
    ensures
        element_end(name, i) == end,
    decreases end - i,
{
    if i < end {
        lemma_element_end_is(name, i + 1, end);
    }
}

/// The name under which the archive of an object, in a variant, is told
/// apart from other archives: the object name and the variant name,
/// abbreviated word by word, followed by `hash` in hexadecimal.
pub open spec fn hashed_name(object_name: Seq<char>, variant_name: Seq<char>, hash: u32) -> Seq<
    char,
> {
    abbreviation(object_name + " "@ + variant_name, 0) + hex_text(hash)
}

/// Abbreviates the words of `name`.
fn abbreviate(name: &str) -> (r: String)
    ensures
        r@ == abbreviation(name@, 0),
{
    let n = name.unicode_len();
    let mut out = String::new();
    let mut i: usize = 0;
    let ghost whole = abbreviation(name@, 0);
    assert(out@ + whole =~= whole);
    loop
        invariant
            i <= n == name@.len(),
            whole == abbreviation(name@, 0),
            out@ + abbreviation(name@, i as int) == whole,
        decreases n - i,
    {
        let mut end: usize = i;
        while end < n && name.get_char(end) != ' '
            invariant
                i <= end <= n == name@.len(),
                forall|k: int| i <= k < end ==> name@[k] != ' ',
            decreases n - end,
        {
            end += 1;
        }
        proof {
            lemma_element_end_is(name@, i as int, end as int);
        }
        let ghost before = out@;
        let ghost element = name@.subrange(i as int, end as int);
        if end - i >= 2 {
            out = out.concat(name.substring_char(i, i + 2));
            assert(name@.subrange(i as int, i + 2) =~= element.subrange(0, 2));
        } else if end - i == 1 && name.get_char(i) as u32 >= 0x80 {
            out = out.concat(name.substring_char(i, i + 1));
            assert(name@.subrange(i as int, i + 1) =~= element);
        } else {
            assert(out@ =~= before + abbreviated(element));
        }
        assert(out@ == before + abbreviated(element));
        if end >= n {
            proof {
                assert(before + (abbreviated(element) + Seq::<char>::empty()) =~= out@);
            }
            return out;
        }
        proof {
            let rest = abbreviation(name@, end + 1);
            assert(before + (abbreviated(element) + rest) =~= out@ + rest);
        }
        i = end + 1;
    }
}

/// Names an archive with a hash that is given.
pub fn iff_file_name_with_hash(object_name: &str, variant_name: &str, hash: u32) -> (r: String)
    ensures
        r@ == hashed_name(object_name@, variant_name@, hash),
{
    let name = String::from_str(object_name).concat(" ").concat(variant_name);
    let abbreviation = abbreviate(name.as_str());
    let hex = upper_hex(hash);
    abbreviation.concat(hex.as_str())
}

/// `Hash::hash` of the standard library for a string slice, into the
/// hasher that the standard library's hash maps use by default. What is
/// written to the hasher is not specified, so nothing is said of its
/// state afterwards.
#[verifier::external_body]
fn hash_text(hasher: &mut DefaultHasher, text: &str) {
    text.hash(hasher);
}

/// Names the archive of an object in a variant: the two names abbreviated
/// word by word, followed by the low 32 bits of the standard library's
/// hash of the two names, in hexadecimal.
pub fn get_iff_file_name_hash(object_name: &str, variant_name: &str) -> (r: String)
    ensures
        exists|hash: u32| r@ == hashed_name(object_name@, variant_name@, hash),
{
    let name = String::from_str(object_name).concat(" ").concat(variant_name);
    let mut hasher = DefaultHasher::new();
    hash_text(&mut hasher, name.as_str());
    let hash = (hasher.finish() % 0x1_0000_0000) as u32;
    iff_file_name_with_hash(object_name, variant_name, hash)
}

} // verus!
