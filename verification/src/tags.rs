//! Executable tag-set operations: reading a raw attribute value into a tag
//! sequence, serializing one back, adding tags and removing tags.

use crate::model::{
    lemma_add_tags_unfold_right, lemma_split_no_sep, lemma_split_prefix, lower_of, spec_add_tag,
    spec_add_tags, spec_join, spec_lower_all, spec_parse, spec_remove_tags, spec_serialize,
    spec_split, spec_tags_of,
};
use vstd::prelude::*;
use vstd::string::StrSliceExecFns;
use vstd::string::StringExecFns;

verus! {

/// Relies on str::to_lowercase from std: the lower-cased form of a string
/// is determined by its characters alone.
#[verifier::external_body]
fn lowercase(s: &str) -> (r: String)
    ensures
        r@ == lower_of(s@),
{
    s.to_lowercase()
}

/// The raw attribute string of a path, with an empty value treated the
/// same as an absent attribute.
pub fn get_tags_string(raw: Option<String>) -> (r: Option<String>)
    ensures
        r == (match raw {
            Option::None => Option::<String>::None,
            Option::Some(s) => if s@.len() == 0 {
                Option::<String>::None
            } else {
                Option::Some(s)
            },
        }),
{
    match raw {
        Option::None => Option::None,
        Option::Some(s) => if s.as_str().is_empty() {
            Option::None
        } else {
            Option::Some(s)
        },
    }
}

/// Splits a raw attribute string at every comma. An empty string yields no
/// tags; separators at the edges or next to each other yield empty tags.
pub fn parse(raw: &str) -> (r: Vec<String>)
    ensures
        r.deep_view() == spec_parse(raw@),
{
    let ghost s = raw@;
    let len = raw.unicode_len();
    let mut out: Vec<String> = Vec::new();
    if len == 0 {
        proof {
            assert(out.deep_view() =~= Seq::<Seq<char>>::empty());
        }
        return out;
    }
    let mut start: usize = 0;
    let mut i: usize = 0;
    proof {
        assert(out.deep_view() =~= Seq::<Seq<char>>::empty());
        assert(s.skip(0) =~= s);
        assert(out.deep_view() + spec_split(s.skip(0), ',') =~= spec_split(s, ','));
    }
    while i < len
        invariant
            raw@ == s,
            s.len() == len,
            0 <= start <= i <= len,
            forall|k: int| start <= k < i ==> s[k] != ',',
            spec_split(s, ',') =~= out.deep_view() + spec_split(s.skip(start as int), ','),
        decreases len - i,
    {
        if raw.get_char(i) == ',' {
            let token = raw.substring_char(start, i).to_owned();
            proof {
                let piece = s.subrange(start as int, i as int);
                assert(!piece.contains(',')) by {
                    if piece.contains(',') {
                        let j = choose|j: int| 0 <= j < piece.len() && piece[j] == ',';
                        assert(s[start + j] == ',');
                    }
                }
                assert(s.skip(start as int) =~= piece + seq![','] + s.skip(i + 1));
                lemma_split_prefix(piece, s.skip(i + 1), ',');
                assert(out.deep_view().push(piece) + spec_split(s.skip(i + 1), ',')
                    =~= out.deep_view() + (seq![piece] + spec_split(s.skip(i + 1), ',')));
            }
            let ghost before = out.deep_view();
            out.push(token);
            proof {
                assert(out.deep_view() =~= before.push(s.subrange(start as int, i as int)));
            }
            start = i + 1;
        }
        i += 1;
    }
    let token = raw.substring_char(start, len).to_owned();
    proof {
        let piece = s.subrange(start as int, len as int);
        assert(!piece.contains(',')) by {
            if piece.contains(',') {
                let j = choose|j: int| 0 <= j < piece.len() && piece[j] == ',';
                assert(s[start + j] == ',');
            }
        }
        assert(s.skip(start as int) =~= piece);
        lemma_split_no_sep(piece, ',');
    }
    let ghost before = out.deep_view();
    out.push(token);
    proof {
        assert(out.deep_view() =~= before.push(s.subrange(start as int, len as int)));
        assert(before.push(s.subrange(start as int, len as int)) =~= before + seq![
            s.subrange(start as int, len as int),
        ]);
        assert(out.deep_view() =~= spec_split(s, ','));
    }
    out
}

/// Joins tags with a one-character separator between each adjacent pair.
pub fn join(tags: &Vec<String>, sep: &str) -> (r: String)
    requires
        sep@.len() == 1,
    ensures
        r@ == spec_join(tags.deep_view(), sep@[0]),
{
    let mut r = String::new();
    let n = tags.len();
    let mut i: usize = 0;
    proof {
        assert(tags.deep_view().take(0) =~= Seq::<Seq<char>>::empty());
    }
    while i < n
        invariant
            sep@.len() == 1,
            0 <= i <= n,
            n == tags@.len(),
            r@ == spec_join(tags.deep_view().take(i as int), sep@[0]),
        decreases n - i,
    {
        let ghost dv = tags.deep_view();
        proof {
            assert(dv.take(i + 1) =~= dv.take(i as int).push(dv[i as int]));
            crate::model::lemma_join_push(dv.take(i as int), dv[i as int], sep@[0]);
            assert(seq![sep@[0]] =~= sep@);
        }
        if i > 0 {
            r.append(sep);
        }
        r.append(tags[i].as_str());
        i += 1;
    }
    proof {
        assert(tags.deep_view().take(n as int) =~= tags.deep_view());
    }
    r
}

/// The raw attribute string denoting a tag sequence: the tags joined with
/// commas. A tag that itself holds a comma is not rejected here; it will
/// read back as several tags.
pub fn serialize(tags: &Vec<String>) -> (r: String)
    ensures
        r@ == spec_serialize(tags.deep_view()),
{
    proof {
        reveal_strlit(",");
    }
    join(tags, ",")
}

/// Whether a tag is among the stored ones, compared exactly.
fn contains_tag(tags: &Vec<String>, tag: &String) -> (r: bool)
    ensures
        r == tags.deep_view().contains(tag@),
{
    let n = tags.len();
    let mut i: usize = 0;
    while i < n
        invariant
            0 <= i <= n,
            n == tags@.len(),
            forall|k: int| 0 <= k < i ==> tags.deep_view()[k] != tag@,
        decreases n - i,
    {
        if tags[i] == *tag {
            proof {
                assert(tags.deep_view()[i as int] == tag@);
            }
            return true;
        }
        i += 1;
    }
    false
}

/// The tag sequence read from a raw attribute value: an absent or empty
/// value yields no tags, anything else splits at commas.
pub fn get_tags_vec(raw: Option<String>) -> (r: Vec<String>)
    ensures
        r.deep_view() == spec_tags_of(raw.deep_view()),
{
    match get_tags_string(raw) {
        Option::None => {
            let out: Vec<String> = Vec::new();
            proof {
                assert(out.deep_view() =~= Seq::<Seq<char>>::empty());
            }
            out
        },
        Option::Some(s) => parse(s.as_str()),
    }
}

/// Adds tags to a stored sequence: each tag is lower-cased, and appended
/// at the end unless already present after lower-casing. Tags already
/// stored keep their positions; new ones keep the given order.
pub fn set_tags(stored: Vec<String>, tags: &Vec<String>) -> (r: Vec<String>)
    ensures
        r.deep_view() == spec_add_tags(stored.deep_view(), spec_lower_all(tags.deep_view())),
{
    let ghost orig = stored.deep_view();
    let mut fs_tags = stored;
    let n = tags.len();
    let mut i: usize = 0;
    proof {
        assert(spec_lower_all(tags.deep_view().take(0)) =~= Seq::<Seq<char>>::empty());
    }
    while i < n
        invariant
            0 <= i <= n,
            n == tags@.len(),
            fs_tags.deep_view() == spec_add_tags(
                orig,
                spec_lower_all(tags.deep_view().take(i as int)),
            ),
        decreases n - i,
    {
        let ghost dv = tags.deep_view();
        let ghost lows = spec_lower_all(dv.take(i as int));
        let ghost before = fs_tags.deep_view();
        let low = lowercase(tags[i].as_str());
        if !contains_tag(&fs_tags, &low) {
            fs_tags.push(low);
            proof {
                assert(fs_tags.deep_view() =~= before.push(lower_of(dv[i as int])));
            }
        }
        proof {
            assert(fs_tags.deep_view() == spec_add_tag(before, lower_of(dv[i as int])));
            lemma_add_tags_unfold_right(orig, lows, lower_of(dv[i as int]));
            assert(spec_lower_all(dv.take(i + 1)) =~= lows.push(lower_of(dv[i as int])));
        }
        i += 1;
    }
    proof {
        assert(tags.deep_view().take(n as int) =~= tags.deep_view());
    }
    fs_tags
}

/// Removes tags from a stored sequence: exactly the stored tags that are
/// among the given ones are dropped, the rest keep their order. The given
/// tags are compared as written, not lower-cased, so a stored tag is only
/// dropped on an exact match.
pub fn remove_tags(stored: Vec<String>, tags: &Vec<String>) -> (r: Vec<String>)
    ensures
        r.deep_view() == spec_remove_tags(stored.deep_view(), tags.deep_view()),
{
    let ghost orig = stored.deep_view();
    let mut out: Vec<String> = Vec::new();
    let n = stored.len();
    let mut i: usize = 0;
    proof {
        reveal(Seq::filter);
        assert(orig.take(0) =~= Seq::<Seq<char>>::empty());
        assert(out.deep_view() =~= spec_remove_tags(orig.take(0), tags.deep_view()));
    }
    while i < n
        invariant
            0 <= i <= n,
            n == stored@.len(),
            orig == stored.deep_view(),
            out.deep_view() == spec_remove_tags(orig.take(i as int), tags.deep_view()),
        decreases n - i,
    {
        let ghost before = out.deep_view();
        proof {
            reveal(Seq::filter);
            assert(orig.take(i + 1).drop_last() =~= orig.take(i as int));
            assert(orig.take(i + 1).last() == orig[i as int]);
        }
        if !contains_tag(tags, &stored[i]) {
            out.push(stored[i].clone());
            proof {
                assert(out.deep_view() =~= before.push(orig[i as int]));
            }
        }
        i += 1;
    }
    proof {
        assert(orig.take(n as int) =~= orig);
    }
    out
}

} // verus!
