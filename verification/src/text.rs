//! Small operations on texts: lower case, order, and the part before a mark.
use vstd::prelude::*;
use vstd::std_specs::iter::IteratorSpec;
use vstd::string::StrSliceExecFns;
use vstd::utf8::encode_utf8;
use crate::encoding::lemma_encoded_len_at_least;

verus! {

/// The lower-case form of a text, as `str::to_lowercase` gives it: by the
/// Unicode property Lowercase, whatever the locale.
pub uninterp spec fn lowercase_of(text: Seq<char>) -> Seq<char>;

/// Trusted: `str::to_lowercase`. The contract names its result.
#[verifier::external_body]
pub(crate) fn lowercase(text: &str) -> (lower: String)
    ensures
        lower@ == lowercase_of(text@),
{
    text.to_lowercase()
}

/// The text without leading and trailing white space, as `str::trim` gives
/// it: by the Unicode property White_Space.
pub uninterp spec fn stripped_of(text: Seq<char>) -> Seq<char>;

/// Trusted: `str::trim`. The contract names its result.
#[verifier::external_body]
pub(crate) fn stripped(text: &str) -> (kept: &str)
    ensures
        kept@ == stripped_of(text@),
{
    text.trim()
}

/// Where the mark first stands in the text, or the length of the text where
/// it does not occur.
pub open spec fn first_mark(text: Seq<char>, mark: char) -> int
    decreases text.len(),
{
    if text.len() == 0 || text[0] == mark {
        0
    } else {
        1 + first_mark(text.drop_first(), mark)
    }
}

/// The part of the text before the first occurrence of the mark; the whole
/// text where the mark does not occur.
pub open spec fn before_mark(text: Seq<char>, mark: char) -> Seq<char> {
    text.take(first_mark(text, mark))
}

/// `first_mark` is the least index at which the mark stands.
pub proof fn lemma_first_mark(text: Seq<char>, mark: char)
    ensures
        0 <= first_mark(text, mark) <= text.len(),
        forall|j: int| 0 <= j < first_mark(text, mark) ==> text[j] != mark,
        first_mark(text, mark) < text.len() ==> text[first_mark(text, mark)] == mark,
    decreases text.len(),
{
    if text.len() > 0 && text[0] != mark {
        let rest = text.drop_first();
        lemma_first_mark(rest, mark);
        assert forall|j: int| 0 <= j < first_mark(text, mark) implies text[j] != mark by {
            if j > 0 {
                assert(text[j] == rest[j - 1]);
            }
        }
    }
}

/// An index before which the mark does not stand, and at which it stands or
/// the text ends, is `first_mark`.
pub proof fn lemma_first_mark_is(text: Seq<char>, mark: char, at: int)
    requires
        0 <= at <= text.len(),
        forall|j: int| 0 <= j < at ==> text[j] != mark,
        at < text.len() ==> text[at] == mark,
    ensures
        first_mark(text, mark) == at,
{
    lemma_first_mark(text, mark);
}

/// Cuts a text before the first occurrence of a mark.
pub fn cut_before(text: &str, mark: char) -> (head: &str)
    ensures
        head@ == before_mark(text@, mark),
{
    let limit = text.as_bytes().len();
    proof {
        lemma_encoded_len_at_least(text@);
    }
    let mut chars = text.chars();
    let mut seen: usize = 0;
    loop
        invariant_except_break
            chars.obeys_prophetic_iter_laws(),
            chars.remaining() == text@.skip(seen as int),
        invariant
            seen <= text@.len() <= limit,
            forall|j: int| 0 <= j < seen ==> text@[j] != mark,
        ensures
            seen <= text@.len(),
            forall|j: int| 0 <= j < seen ==> text@[j] != mark,
            seen < text@.len() ==> text@[seen as int] == mark,
        decreases text@.len() - seen,
    {
        match chars.next() {
            Some(c) => {
                if c == mark {
                    break ;
                }
                seen = seen + 1;
            },
            None => {
                break ;
            },
        }
    }
    proof {
        lemma_first_mark_is(text@, mark, seen as int);
    }
    text.substring_char(0, seen)
}

/// The order of byte strings: by the first byte in which two differ, and a
/// beginning before what continues it. Reflexive: a string stands at or
/// before itself.
pub open spec fn bytes_at_or_before(first: Seq<u8>, second: Seq<u8>) -> bool
    decreases first.len(),
{
    if first.len() == 0 {
        true
    } else if second.len() == 0 {
        false
    } else if first[0] != second[0] {
        first[0] < second[0]
    } else {
        bytes_at_or_before(first.drop_first(), second.drop_first())
    }
}

/// The order of texts: that of their UTF-8 encodings, which is the order of
/// `str`.
pub open spec fn at_or_before(first: Seq<char>, second: Seq<char>) -> bool {
    bytes_at_or_before(encode_utf8(first), encode_utf8(second))
}

/// With a common beginning set aside, two byte strings are ordered as their
/// remainders are.
pub proof fn lemma_order_after_common_start(first: Seq<u8>, second: Seq<u8>, common: int)
    requires
        0 <= common <= first.len(),
        common <= second.len(),
        forall|j: int| 0 <= j < common ==> first[j] == second[j],
    ensures
        bytes_at_or_before(first, second) == bytes_at_or_before(
            first.skip(common),
            second.skip(common),
        ),
    decreases common,
{
    if common == 0 {
        assert(first.skip(0) =~= first);
        assert(second.skip(0) =~= second);
    } else {
        lemma_order_after_common_start(first.drop_first(), second.drop_first(), common - 1);
        assert(first.drop_first().skip(common - 1) =~= first.skip(common));
        assert(second.drop_first().skip(common - 1) =~= second.skip(common));
    }
}

/// Of two byte strings one stands at or before the other.
pub proof fn lemma_order_is_total(first: Seq<u8>, second: Seq<u8>)
    ensures
        bytes_at_or_before(first, second) || bytes_at_or_before(second, first),
    decreases first.len(),
{
    if first.len() > 0 && second.len() > 0 && first[0] == second[0] {
        lemma_order_is_total(first.drop_first(), second.drop_first());
    }
}

/// What stands at or before a string stands at or before all that the string
/// stands at or before.
pub proof fn lemma_order_is_transitive(first: Seq<u8>, second: Seq<u8>, third: Seq<u8>)
    requires
        bytes_at_or_before(first, second),
        bytes_at_or_before(second, third),
    ensures
        bytes_at_or_before(first, third),
    decreases first.len(),
{
    if first.len() > 0 && second.len() > 0 && third.len() > 0 && first[0] == second[0]
        && second[0] == third[0] {
        lemma_order_is_transitive(first.drop_first(), second.drop_first(), third.drop_first());
    }
}

/// Two byte strings that stand at or before each other are the same.
pub proof fn lemma_order_is_antisymmetric(first: Seq<u8>, second: Seq<u8>)
    requires
        bytes_at_or_before(first, second),
        bytes_at_or_before(second, first),
    ensures
        first == second,
    decreases first.len(),
{
    if first.len() > 0 && second.len() > 0 {
        lemma_order_is_antisymmetric(first.drop_first(), second.drop_first());
        assert(first =~= seq![first[0]] + first.drop_first());
        assert(second =~= seq![second[0]] + second.drop_first());
    }
}

/// Tells whether the first text stands at or before the second in the order
/// of texts.
pub fn stands_at_or_before(first: &str, second: &str) -> (ordered: bool)
    ensures
        ordered == at_or_before(first@, second@),
{
    let left = first.as_bytes();
    let right = second.as_bytes();
    let mut at: usize = 0;
    while at < left.len() && at < right.len()
        invariant
            at <= left.len(),
            at <= right.len(),
            left@ == encode_utf8(first@),
            right@ == encode_utf8(second@),
            forall|j: int| 0 <= j < at ==> left@[j] == right@[j],
        decreases left.len() - at,
    {
        if left[at] != right[at] {
            proof {
                lemma_order_after_common_start(left@, right@, at as int);
            }
            return left[at] < right[at];
        }
        at = at + 1;
    }
    proof {
        lemma_order_after_common_start(left@, right@, at as int);
    }
    at == left.len()
}

} // verus!
