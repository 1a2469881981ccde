//! The mathematical model of a tag set: a sequence of character sequences,
//! stored on disk as one string joined with `,`.

use vstd::prelude::*;

verus! {

/// Splits `s` at every occurrence of `sep`. Every split of a non-empty
/// string yields at least one piece, and separators at the edges or next
/// to each other yield empty pieces, exactly as `str::split` does.
pub open spec fn spec_split(s: Seq<char>, sep: char) -> Seq<Seq<char>>
    decreases s.len(),
{
    if s.len() == 0 {
        seq![Seq::<char>::empty()]
    } else if s[0] == sep {
        seq![Seq::<char>::empty()] + spec_split(s.drop_first(), sep)
    } else {
        let rest = spec_split(s.drop_first(), sep);
        seq![seq![s[0]] + rest[0]] + rest.drop_first()
    }
}

/// Joins the pieces with `sep` between each adjacent pair.
pub open spec fn spec_join(pieces: Seq<Seq<char>>, sep: char) -> Seq<char>
    decreases pieces.len(),
{
    if pieces.len() == 0 {
        Seq::<char>::empty()
    } else if pieces.len() == 1 {
        pieces[0]
    } else {
        pieces[0] + seq![sep] + spec_join(pieces.drop_first(), sep)
    }
}

/// The tag sequence denoted by a raw attribute string: an empty string
/// denotes no tags at all, anything else splits at commas.
pub open spec fn spec_parse(s: Seq<char>) -> Seq<Seq<char>> {
    if s.len() == 0 {
        Seq::<Seq<char>>::empty()
    } else {
        spec_split(s, ',')
    }
}

/// The raw attribute string denoting a tag sequence.
pub open spec fn spec_serialize(tags: Seq<Seq<char>>) -> Seq<char> {
    spec_join(tags, ',')
}

/// A string free of the separator splits into itself alone.
pub proof fn lemma_split_no_sep(s: Seq<char>, sep: char)
    requires
        !s.contains(sep),
    ensures
        spec_split(s, sep) =~= seq![s],
    decreases s.len(),
{
    if s.len() == 0 {
        assert(s =~= Seq::<char>::empty());
    } else {
        assert(s[0] != sep);
        assert(forall|i: int| 0 <= i < s.drop_first().len() ==> s.drop_first()[i] == s[i + 1]);
        assert(!s.drop_first().contains(sep)) by {
            if s.drop_first().contains(sep) {
                let i = choose|i: int| 0 <= i < s.drop_first().len() && s.drop_first()[i] == sep;
                assert(s[i + 1] == sep);
            }
        }
        lemma_split_no_sep(s.drop_first(), sep);
        assert(seq![s[0]] + s.drop_first() =~= s);
    }
}

/// Splitting `a + sep + b` peels `a` off as the first piece when `a` is
/// free of the separator.
pub proof fn lemma_split_prefix(a: Seq<char>, b: Seq<char>, sep: char)
    requires
        !a.contains(sep),
    ensures
        spec_split(a + seq![sep] + b, sep) =~= seq![a] + spec_split(b, sep),
    decreases a.len(),
{
    let s = a + seq![sep] + b;
    if a.len() == 0 {
        assert(a =~= Seq::<char>::empty());
        assert(s =~= seq![sep] + b);
        assert(s[0] == sep);
        assert(s.drop_first() =~= b);
    } else {
        assert(s[0] == a[0]);
        assert(a[0] != sep);
        assert(forall|i: int| 0 <= i < a.drop_first().len() ==> a.drop_first()[i] == a[i + 1]);
        assert(!a.drop_first().contains(sep)) by {
            if a.drop_first().contains(sep) {
                let i = choose|i: int|
                    0 <= i < a.drop_first().len() && a.drop_first()[i] == sep;
                assert(a[i + 1] == sep);
            }
        }
        lemma_split_prefix(a.drop_first(), b, sep);
        assert(s.drop_first() =~= a.drop_first() + seq![sep] + b);
        let rest = spec_split(s.drop_first(), sep);
        assert(rest =~= seq![a.drop_first()] + spec_split(b, sep));
        assert(seq![a[0]] + rest[0] =~= a);
        assert(rest.drop_first() =~= spec_split(b, sep));
    }
}

/// Joining then splitting gives the pieces back, as long as no piece
/// holds the separator.
pub proof fn lemma_split_join(pieces: Seq<Seq<char>>, sep: char)
    requires
        pieces.len() >= 1,
        forall|i: int| 0 <= i < pieces.len() ==> !(#[trigger] pieces[i]).contains(sep),
    ensures
        spec_split(spec_join(pieces, sep), sep) =~= pieces,
    decreases pieces.len(),
{
    if pieces.len() == 1 {
        lemma_split_no_sep(pieces[0], sep);
    } else {
        let rest = pieces.drop_first();
        assert(forall|i: int| 0 <= i < rest.len() ==> !(#[trigger] rest[i]).contains(sep));
        lemma_split_join(rest, sep);
        lemma_split_prefix(pieces[0], spec_join(rest, sep), sep);
        assert(seq![pieces[0]] + rest =~= pieces);
    }
}

/// Parsing the serialized form of a tag sequence gives the sequence back,
/// as long as no tag holds a comma. A sequence of exactly one empty tag is
/// left out: it serializes to the empty string, which denotes no tags.
pub proof fn lemma_parse_serialize_round_trip(tags: Seq<Seq<char>>)
    requires
        forall|i: int| 0 <= i < tags.len() ==> !(#[trigger] tags[i]).contains(','),
        tags.len() == 1 ==> tags[0].len() > 0,
    ensures
        spec_parse(spec_serialize(tags)) =~= tags,
{
    if tags.len() == 0 {
    } else {
        assert(spec_serialize(tags).len() > 0) by {
            if tags.len() >= 2 {
                assert(spec_serialize(tags) =~= tags[0] + seq![','] + spec_join(
                    tags.drop_first(),
                    ',',
                ));
            }
        }
        lemma_split_join(tags, ',');
    }
}

/// The lower-cased form of a string, as `str::to_lowercase` computes it.
/// The full Unicode case-folding table is not restated here; the name is
/// given meaning only by the trusted wrapper around that call.
pub uninterp spec fn lower_of(s: Seq<char>) -> Seq<char>;

/// `set` normalizes every incoming tag by lower-casing it.
pub open spec fn spec_lower_all(tags: Seq<Seq<char>>) -> Seq<Seq<char>> {
    tags.map_values(|t: Seq<char>| lower_of(t))
}

/// The tag sequence denoted by an attribute value that may be absent:
/// no attribute means no tags.
pub open spec fn spec_tags_of(raw: Option<Seq<char>>) -> Seq<Seq<char>> {
    match raw {
        Option::None => Seq::<Seq<char>>::empty(),
        Option::Some(s) => spec_parse(s),
    }
}

/// Appending a piece before joining extends the joined string by a
/// separator and the piece (the separator only from the second piece on).
pub proof fn lemma_join_push(pieces: Seq<Seq<char>>, piece: Seq<char>, sep: char)
    ensures
        spec_join(pieces.push(piece), sep) =~= if pieces.len() == 0 {
            piece
        } else {
            spec_join(pieces, sep) + seq![sep] + piece
        },
    decreases pieces.len(),
{
    if pieces.len() == 0 {
        assert(pieces.push(piece)[0] == piece);
        assert(spec_join(pieces.push(piece), sep) == piece);
    } else if pieces.len() == 1 {
        assert(pieces.push(piece)[0] == pieces[0]);
        assert(pieces.push(piece).drop_first() =~= seq![piece]);
        assert(spec_join(pieces.push(piece).drop_first(), sep) == piece);
        assert(spec_join(pieces.push(piece), sep) == pieces[0] + seq![sep] + piece);
        assert(spec_join(pieces, sep) == pieces[0]);
    } else {
        assert(pieces.push(piece)[0] == pieces[0]);
        assert(pieces.push(piece).drop_first() =~= pieces.drop_first().push(piece));
        lemma_join_push(pieces.drop_first(), piece, sep);
        assert(pieces[0] + seq![sep] + (spec_join(pieces.drop_first(), sep) + seq![sep] + piece)
            =~= (pieces[0] + seq![sep] + spec_join(pieces.drop_first(), sep)) + seq![sep] + piece);
    }
}

/// One step of `set`: a tag already present leaves the stored sequence
/// unchanged, a new one is appended at the end.
pub open spec fn spec_add_tag(stored: Seq<Seq<char>>, tag: Seq<char>) -> Seq<Seq<char>> {
    if stored.contains(tag) {
        stored
    } else {
        stored.push(tag)
    }
}

/// The whole of `set`: the tags are added one by one, in the given order.
pub open spec fn spec_add_tags(stored: Seq<Seq<char>>, tags: Seq<Seq<char>>) -> Seq<Seq<char>>
    decreases tags.len(),
{
    if tags.len() == 0 {
        stored
    } else {
        spec_add_tags(spec_add_tag(stored, tags[0]), tags.drop_first())
    }
}

/// `remove` keeps exactly the stored tags that are not named for removal.
pub open spec fn spec_remove_tags(stored: Seq<Seq<char>>, tags: Seq<Seq<char>>) -> Seq<Seq<char>> {
    stored.filter(|t: Seq<char>| !tags.contains(t))
}

/// Adding one more tag after a batch is one `set` step on the batch's
/// result.
pub proof fn lemma_add_tags_unfold_right(stored: Seq<Seq<char>>, tags: Seq<Seq<char>>, tag: Seq<char>)
    ensures
        spec_add_tags(stored, tags.push(tag)) == spec_add_tag(spec_add_tags(stored, tags), tag),
    decreases tags.len(),
{
    if tags.len() == 0 {
        assert(tags.push(tag)[0] == tag);
        assert(tags.push(tag).drop_first() =~= Seq::<Seq<char>>::empty());
        assert(spec_add_tags(spec_add_tag(stored, tag), Seq::<Seq<char>>::empty())
            == spec_add_tag(stored, tag));
    } else {
        assert(tags.push(tag)[0] == tags[0]);
        assert(tags.push(tag).drop_first() =~= tags.drop_first().push(tag));
        lemma_add_tags_unfold_right(spec_add_tag(stored, tags[0]), tags.drop_first(), tag);
    }
}

/// After `set`, everything stored before and everything added is present.
pub proof fn lemma_add_tags_contains(stored: Seq<Seq<char>>, tags: Seq<Seq<char>>)
    ensures
        forall|t: Seq<char>|
            stored.contains(t) || tags.contains(t) ==> #[trigger] spec_add_tags(
                stored,
                tags,
            ).contains(t),
    decreases tags.len(),
{
    if tags.len() != 0 {
        let stored1 = spec_add_tag(stored, tags[0]);
        lemma_add_tags_contains(stored1, tags.drop_first());
        assert forall|t: Seq<char>|
            stored.contains(t) || tags.contains(t) implies #[trigger] spec_add_tags(
            stored,
            tags,
        ).contains(t) by {
            assert(spec_add_tags(stored, tags) == spec_add_tags(stored1, tags.drop_first()));
            if stored.contains(t) || t == tags[0] {
                if !stored.contains(tags[0]) {
                    if stored.contains(t) {
                        let i = choose|i: int| 0 <= i < stored.len() && stored[i] == t;
                        assert(stored.push(tags[0])[i] == t);
                    } else {
                        assert(stored.push(tags[0])[stored.len() as int] == t);
                    }
                }
                assert(stored1.contains(t));
            } else {
                let i = choose|i: int| 0 <= i < tags.len() && tags[i] == t;
                assert(tags.drop_first()[i - 1] == t);
                assert(tags.drop_first().contains(t));
            }
            assert(spec_add_tags(stored1, tags.drop_first()).contains(t));
        }
    }
}

/// Adding tags that are all present already changes nothing.
pub proof fn lemma_add_tags_absorbed(stored: Seq<Seq<char>>, tags: Seq<Seq<char>>)
    requires
        forall|i: int| 0 <= i < tags.len() ==> stored.contains(#[trigger] tags[i]),
    ensures
        spec_add_tags(stored, tags) == stored,
    decreases tags.len(),
{
    if tags.len() != 0 {
        assert(stored.contains(tags[0]));
        assert(forall|i: int|
            0 <= i < tags.drop_first().len() ==> stored.contains(
                #[trigger] tags.drop_first()[i],
            )) by {
            assert(forall|i: int|
                0 <= i < tags.drop_first().len() ==> tags.drop_first()[i] == tags[i + 1]);
        }
        lemma_add_tags_absorbed(stored, tags.drop_first());
    }
}

/// `set` is idempotent: adding the same tags a second time leaves the
/// stored sequence exactly as one application left it.
pub proof fn lemma_add_tags_idempotent(stored: Seq<Seq<char>>, tags: Seq<Seq<char>>)
    ensures
        spec_add_tags(spec_add_tags(stored, tags), tags) == spec_add_tags(stored, tags),
{
    let once = spec_add_tags(stored, tags);
    lemma_add_tags_contains(stored, tags);
    assert(forall|i: int| 0 <= i < tags.len() ==> once.contains(#[trigger] tags[i])) by {
        assert(forall|i: int| 0 <= i < tags.len() ==> tags.contains(#[trigger] tags[i]));
    }
    lemma_add_tags_absorbed(once, tags);
}

/// A removed tag never survives: nothing in the result of `remove` is
/// among the tags named for removal.
pub proof fn lemma_remove_excludes(stored: Seq<Seq<char>>, tags: Seq<Seq<char>>)
    ensures
        forall|t: Seq<char>| #[trigger]
            spec_remove_tags(stored, tags).contains(t) ==> stored.contains(t) && !tags.contains(t),
    decreases stored.len(),
{
    reveal(Seq::filter);
    if stored.len() != 0 {
        lemma_remove_excludes(stored.drop_last(), tags);
        let sub = spec_remove_tags(stored.drop_last(), tags);
        let all = spec_remove_tags(stored, tags);
        assert forall|t: Seq<char>| #[trigger]
            all.contains(t) implies stored.contains(t) && !tags.contains(t) by {
            if !tags.contains(stored.last()) {
                assert(all == sub.push(stored.last()));
                let i = choose|i: int| 0 <= i < all.len() && all[i] == t;
                if i < sub.len() {
                    assert(sub[i] == t);
                    assert(sub.contains(t));
                } else {
                    assert(t == stored.last());
                }
            } else {
                assert(all == sub);
            }
            if sub.contains(t) {
                assert(stored.drop_last().contains(t));
                let j = choose|j: int|
                    0 <= j < stored.drop_last().len() && stored.drop_last()[j] == t;
                assert(stored[j] == t);
            }
            if t == stored.last() {
                assert(stored[stored.len() - 1] == t);
            }
        }
    }
}

} // verus!
