//! From the address of a request to the canonical name of a command.
use vstd::prelude::*;
use vstd::std_specs::iter::IteratorSpec;
use vstd::string::{StrSliceExecFns, StringExecFns};
use vstd::utf8::{decode_utf8_encode_utf8, encode_utf8, encode_utf8_decode_utf8, valid_utf8};
use crate::encoding::{
    lemma_ascii_byte_needs_its_char, lemma_encode_concat, lemma_encoded_len_at_least,
};
use crate::percent::{
    decoded_text, holds_escape, lemma_decoded_is_no_longer, lemma_decoding_changes_escapes_only,
    lemma_nothing_to_decode, percent_decode_utf8, percent_decoded,
};

verus! {

/// The text without its leading slashes.
pub open spec fn trim_start(text: Seq<char>) -> Seq<char>
    decreases text.len(),
{
    if text.len() > 0 && text[0] == '/' {
        trim_start(text.drop_first())
    } else {
        text
    }
}

/// The text without its trailing slashes.
pub open spec fn trim_end(text: Seq<char>) -> Seq<char>
    decreases text.len(),
{
    if text.len() > 0 && text.last() == '/' {
        trim_end(text.drop_last())
    } else {
        text
    }
}

/// The text without its leading and trailing slashes.
pub open spec fn trimmed(text: Seq<char>) -> Seq<char> {
    trim_end(trim_start(text))
}

/// The path without one leading slash, if it has one.
pub open spec fn without_leading_slash(path: Seq<char>) -> Seq<char> {
    if path.len() > 0 && path[0] == '/' {
        path.drop_first()
    } else {
        path
    }
}

/// The text of the authority, empty where the address has none.
pub open spec fn host_of(authority: Option<&str>) -> Seq<char> {
    match authority {
        Some(host) => host@,
        None => Seq::empty(),
    }
}

/// Host and path put together: the one that is not empty, or both with a
/// slash between them. One leading slash of the path does not count.
pub open spec fn joined(host: Seq<char>, path: Seq<char>) -> Seq<char> {
    let rest = without_leading_slash(path);
    if host.len() == 0 {
        rest
    } else if rest.len() == 0 {
        host
    } else {
        host + seq!['/'] + rest
    }
}

/// The canonical form of a raw command name: slashes trimmed from both ends,
/// then percent-decoded as UTF-8; where the decoding fails, the trimmed text.
pub open spec fn normalized(raw: Seq<char>) -> Seq<char> {
    match decoded_text(trimmed(raw)) {
        Some(text) => text,
        None => trimmed(raw),
    }
}

/// The canonical command name that an address stands for.
pub open spec fn resolved(host: Seq<char>, path: Seq<char>) -> Seq<char> {
    normalized(joined(host, path))
}

/// True when no slash stands at either end of the text.
pub open spec fn bare(text: Seq<char>) -> bool {
    text.len() > 0 ==> text[0] != '/' && text.last() != '/'
}

/// True when the name is in canonical form: no slash at either end, and
/// nothing left to decode, because the name holds no escape or because what
/// its escapes stand for is not valid UTF-8.
pub open spec fn canonical(name: Seq<char>) -> bool {
    &&& bare(name)
    &&& (!holds_escape(encode_utf8(name)) || !valid_utf8(percent_decoded(encode_utf8(name))))
}

/// `trim_start` removes exactly the first `count` characters when those are
/// slashes and the next one is not.
pub proof fn lemma_trim_start_skips(text: Seq<char>, count: int)
    requires
        0 <= count <= text.len(),
        forall|j: int| 0 <= j < count ==> text[j] == '/',
        count < text.len() ==> text[count] != '/',
    ensures
        trim_start(text) == text.skip(count),
    decreases count,
{
    if count > 0 {
        lemma_trim_start_skips(text.drop_first(), count - 1);
    }
}

/// `trim_end` keeps exactly the first `keep` characters when all after them
/// are slashes and the last kept one is not.
pub proof fn lemma_trim_end_takes(text: Seq<char>, keep: int)
    requires
        0 <= keep <= text.len(),
        forall|j: int| keep <= j < text.len() ==> text[j] == '/',
        keep > 0 ==> text[keep - 1] != '/',
    ensures
        trim_end(text) == text.take(keep),
    decreases text.len() - keep,
{
    if keep < text.len() {
        lemma_trim_end_takes(text.drop_last(), keep);
    }
}

/// The trimmed text is the stretch between the leading and the trailing
/// slashes.
pub proof fn lemma_trimmed_is_core(text: Seq<char>, start: int, end: int)
    requires
        0 <= start <= end <= text.len(),
        forall|j: int| 0 <= j < start ==> text[j] == '/',
        forall|j: int| end <= j < text.len() ==> text[j] == '/',
        start < end ==> text[start] != '/' && text[end - 1] != '/',
    ensures
        trimmed(text) == text.subrange(start, end),
{
    if start == end {
        lemma_trim_start_skips(text, text.len() as int);
    } else {
        lemma_trim_start_skips(text, start);
        lemma_trim_end_takes(text.skip(start), end - start);
    }
}

/// Trimming at the start leaves a text that does not begin with a slash. It
/// changes the text exactly when that begins with one, and then the encoding
/// gets shorter.
pub proof fn lemma_trim_start(text: Seq<char>)
    ensures
        trim_start(text).len() > 0 ==> trim_start(text)[0] != '/',
        trim_start(text) != text <==> text.len() > 0 && text[0] == '/',
        encode_utf8(trim_start(text)).len() <= encode_utf8(text).len(),
        trim_start(text) != text ==> encode_utf8(trim_start(text)).len() < encode_utf8(
            text,
        ).len(),
    decreases text.len(),
{
    if text.len() > 0 && text[0] == '/' {
        lemma_trim_start(text.drop_first());
    }
}

/// Trimming at the end leaves a beginning of the text that does not end with
/// a slash. It changes the text exactly when that ends with one, and then the
/// encoding gets shorter.
pub proof fn lemma_trim_end(text: Seq<char>)
    ensures
        trim_end(text).len() > 0 ==> trim_end(text).last() != '/',
        trim_end(text) == text.take(trim_end(text).len() as int),
        trim_end(text).len() <= text.len(),
        trim_end(text) != text <==> text.len() > 0 && text.last() == '/',
        encode_utf8(trim_end(text)).len() <= encode_utf8(text).len(),
        trim_end(text) != text ==> encode_utf8(trim_end(text)).len() < encode_utf8(text).len(),
    decreases text.len(),
{
    if text.len() > 0 && text.last() == '/' {
        let rest = text.drop_last();
        lemma_trim_end(rest);
        assert(text =~= rest + seq![text.last()]);
        lemma_encode_concat(rest, seq![text.last()]);
    }
}

/// The trimmed text has no slash at either end. Trimming changes a text
/// exactly when that has a slash at an end, and then the encoding gets
/// shorter.
pub proof fn lemma_trimmed(text: Seq<char>)
    ensures
        bare(trimmed(text)),
        trimmed(text) == text <==> bare(text),
        encode_utf8(trimmed(text)).len() <= encode_utf8(text).len(),
        trimmed(text) != text ==> encode_utf8(trimmed(text)).len() < encode_utf8(text).len(),
{
    lemma_trim_start(text);
    lemma_trim_end(trim_start(text));
}

/// Trimming twice is trimming once.
pub proof fn lemma_trimmed_twice(text: Seq<char>)
    ensures
        trimmed(trimmed(text)) == trimmed(text),
{
    lemma_trimmed(text);
}

/// The canonical form of a name is encoded in no more bytes than the name
/// has after trimming.
pub proof fn lemma_normalized_is_no_longer(raw: Seq<char>)
    ensures
        encode_utf8(normalized(raw)).len() <= encode_utf8(trimmed(raw)).len(),
{
    let bytes = percent_decoded(encode_utf8(trimmed(raw)));
    lemma_decoded_is_no_longer(encode_utf8(trimmed(raw)));
    if valid_utf8(bytes) {
        decode_utf8_encode_utf8(bytes);
    }
}

/// The names that canonical form leaves as they are, are the canonical ones.
pub proof fn lemma_canonical_names_are_fixed(name: Seq<char>)
    ensures
        normalized(name) == name <==> canonical(name),
{
    let bytes = encode_utf8(name);
    let decoded = percent_decoded(bytes);
    lemma_trimmed(name);
    lemma_normalized_is_no_longer(name);
    lemma_decoding_changes_escapes_only(bytes);
    encode_utf8_decode_utf8(name);
    if trimmed(name) == name {
        if valid_utf8(decoded) {
            decode_utf8_encode_utf8(decoded);
        }
    }
}

/// A name without a percent sign and without a slash at either end is
/// canonical.
pub proof fn lemma_plain_names_are_canonical(name: Seq<char>)
    requires
        bare(name),
        forall|i: int| 0 <= i < name.len() ==> name[i] != '%',
    ensures
        canonical(name),
        normalized(name) == name,
{
    lemma_ascii_byte_needs_its_char(name, '%');
    lemma_nothing_to_decode(encode_utf8(name));
    lemma_decoding_changes_escapes_only(encode_utf8(name));
    lemma_canonical_names_are_fixed(name);
}

/// The trimmed text is a stretch of the text.
pub proof fn lemma_trimmed_is_part(text: Seq<char>) -> (start: int)
    ensures
        0 <= start,
        start + trimmed(text).len() <= text.len(),
        trimmed(text) == text.subrange(start, start + trimmed(text).len()),
{
    lemma_trim_start_is_end(text);
    lemma_trim_end(trim_start(text));
    text.len() - trim_start(text).len()
}

/// What trimming at the start leaves is an end of the text.
pub proof fn lemma_trim_start_is_end(text: Seq<char>)
    ensures
        trim_start(text).len() <= text.len(),
        trim_start(text) == text.skip(text.len() - trim_start(text).len()),
    decreases text.len(),
{
    if text.len() > 0 && text[0] == '/' {
        lemma_trim_start_is_end(text.drop_first());
    }
}

/// Resolving is idempotent on the addresses whose name comes out canonical,
/// and on no others: to resolve the name once more, as an authority or as a
/// path, gives the name again exactly when it is canonical.
///
/// A name that is not comes from an escape that stands for a slash at an end
/// of the name, or for a percent sign before two hexadecimal digits: the
/// second resolving trims or decodes what the first has laid bare.
pub proof fn lemma_resolving_again(host: Seq<char>, path: Seq<char>)
    ensures
        ({
            let name = resolved(host, path);
            &&& resolved(name, Seq::empty()) == name <==> canonical(name)
            &&& resolved(Seq::empty(), name) == name <==> canonical(name)
        }),
{
    let name = resolved(host, path);
    lemma_canonical_names_are_fixed(name);
    assert(trim_start(without_leading_slash(name)) == trim_start(name));
}

/// An address without a percent sign resolves to a canonical name: the
/// joined text, trimmed. To resolve that name once more changes nothing.
pub proof fn lemma_resolving_without_percent(host: Seq<char>, path: Seq<char>)
    requires
        forall|i: int| 0 <= i < host.len() ==> host[i] != '%',
        forall|i: int| 0 <= i < path.len() ==> path[i] != '%',
    ensures
        resolved(host, path) == trimmed(joined(host, path)),
        canonical(resolved(host, path)),
        resolved(resolved(host, path), Seq::empty()) == resolved(host, path),
        resolved(Seq::empty(), resolved(host, path)) == resolved(host, path),
{
    let raw = joined(host, path);
    let kept = trimmed(raw);
    let start = lemma_trimmed_is_part(raw);
    assert forall|i: int| 0 <= i < kept.len() implies kept[i] != '%' by {
        assert(kept[i] == raw[start + i]);
    }
    lemma_trimmed(raw);
    lemma_plain_names_are_canonical(kept);
}

/// Where the kept stretch of `text` begins and ends, in characters.
fn kept_range(text: &str) -> (range: (usize, usize))
    ensures
        range.0 <= range.1 <= text@.len(),
        trimmed(text@) == text@.subrange(range.0 as int, range.1 as int),
{
    let limit = text.as_bytes().len();
    proof {
        lemma_encoded_len_at_least(text@);
    }
    let mut chars = text.chars();
    let mut seen: usize = 0;
    let mut start: usize = 0;
    let mut end: usize = 0;
    loop
        invariant
            chars.obeys_prophetic_iter_laws(),
            chars.remaining() == text@.skip(seen as int),
            seen <= text@.len() <= limit,
            start <= end <= seen,
            start == end ==> start == seen,
            forall|j: int| 0 <= j < start ==> text@[j] == '/',
            forall|j: int| end <= j < seen ==> text@[j] == '/',
            start < end ==> text@[start as int] != '/' && text@[end - 1] != '/',
        ensures
            seen == text@.len(),
        decreases text@.len() - seen,
    {
        match chars.next() {
            Some(c) => {
                if c != '/' {
                    if start == end {
                        start = seen;
                    }
                    end = seen + 1;
                } else if start == end {
                    start = seen + 1;
                    end = seen + 1;
                }
                seen = seen + 1;
            },
            None => {
                break ;
            },
        }
    }
    proof {
        lemma_trimmed_is_core(text@, start as int, end as int);
    }
    (start, end)
}

/// Trims all leading and trailing slashes.
pub fn trim_slashes(text: &str) -> (kept: &str)
    ensures
        kept@ == trimmed(text@),
{
    let (start, end) = kept_range(text);
    text.substring_char(start, end)
}

/// Strips one leading slash from a path; further slashes stay.
pub fn strip_leading_slash(path: &str) -> (rest: &str)
    ensures
        rest@ == without_leading_slash(path@),
{
    let count = path.unicode_len();
    if count > 0 && path.get_char(0) == '/' {
        path.substring_char(1, count)
    } else {
        path
    }
}

/// Builds the raw command name from the authority and the path of an address.
pub fn join_address(authority: Option<&str>, path: &str) -> (command: String)
    ensures
        command@ == joined(host_of(authority), path@),
{
    let rest = strip_leading_slash(path);
    match authority {
        Some(host) => {
            if host.is_empty() {
                rest.to_owned()
            } else if rest.is_empty() {
                host.to_owned()
            } else {
                let mut command = String::from_str(host);
                proof {
                    reveal_strlit("/");
                }
                command.append("/");
                command.append(rest);
                command
            }
        },
        None => rest.to_owned(),
    }
}

/// Brings a raw command name into canonical form: trims the slashes at both
/// ends and percent-decodes what is left. A name whose decoding is not valid
/// UTF-8 is kept as it was after trimming.
pub fn normalize(raw: &str) -> (name: String)
    ensures
        name@ == normalized(raw@),
{
    let kept = trim_slashes(raw);
    match percent_decode_utf8(kept) {
        Some(text) => text,
        None => kept.to_owned(),
    }
}

/// Resolves the address of a request to the canonical command name.
pub fn resolve(authority: Option<&str>, path: &str) -> (name: String)
    ensures
        name@ == resolved(host_of(authority), path@),
{
    let raw = join_address(authority, path);
    normalize(raw.as_str())
}

} // verus!
