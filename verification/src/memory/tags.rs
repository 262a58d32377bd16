//! The vocabulary of tags.

use crate::text::{dec, dec_usize, pad_left, push_text, right_aligned, texts};
use vstd::prelude::*;
use vstd::string::*;

verus! {

/// A tag and how many active entries carry it.
pub struct TagCount {
    pub tag: String,
    pub count: usize,
}

/// The line of a tag.
pub open spec fn tag_line(t: TagCount) -> Seq<char> {
    right_aligned(dec(t.count as nat), 5) + "  "@ + t.tag@
}

/// The lines of the vocabulary.
pub open spec fn tag_lines(tags: Seq<TagCount>) -> Seq<Seq<char>> {
    if tags.len() == 0 {
        seq!["No tags recorded."@]
    } else {
        tags.map_values(|t: TagCount| tag_line(t))
    }
}

/// The lines of the vocabulary, or that there is none.
pub fn memory_tags(tags: &Vec<TagCount>) -> (r: Vec<String>)
    ensures
        texts(r@) == tag_lines(tags@),
{
    let ghost want = tag_lines(tags@);
    let mut out: Vec<String> = Vec::new();
    assert(texts(out@) =~= Seq::<Seq<char>>::empty());
    if tags.len() == 0 {
        push_text(&mut out, "No tags recorded.".to_owned());
        assert(texts(out@) =~= want);
        return out;
    }
    let mut i: usize = 0;
    assert(texts(out@) =~= want.take(0));
    while i < tags.len()
        invariant
            i <= tags.len(),
            tags.len() > 0,
            want == tag_lines(tags@),
            texts(out@) == want.take(i as int),
        decreases tags.len() - i,
    {
        let t = &tags[i];
        let line = pad_left(dec_usize(t.count).as_str(), 5).concat("  ").concat(t.tag.as_str());
        proof {
            assert(want[i as int] == tag_line(*t));
            assert(want.take(i + 1) =~= want.take(i as int).push(line@));
        }
        push_text(&mut out, line);
        i = i + 1;
    }
    assert(want.take(i as int) =~= want);
    out
}

/// Each tag has a line, in the order of the vocabulary, which ends with the tag and
/// begins with its count.
pub proof fn law_each_tag_has_its_line(tags: Seq<TagCount>, i: int)
    requires
        0 <= i < tags.len(),
    ensures
        tag_lines(tags).len() == tags.len(),
        (dec(tags[i].count as nat) + "  "@ + tags[i].tag@).is_suffix_of(tag_lines(tags)[i]),
        tag_lines(tags)[i].len() == (if dec(tags[i].count as nat).len() < 5 {
            5
        } else {
            dec(tags[i].count as nat).len()
        }) + 2 + tags[i].tag@.len(),
{
    reveal_strlit("  ");
    let l = tag_lines(tags)[i];
    let told = dec(tags[i].count as nat) + "  "@ + tags[i].tag@;
    assert(l == tag_line(tags[i]));
    assert(l.subrange(l.len() - told.len(), l.len() as int) =~= told);
}

} // verus!
