//! Deltas: byte-range replacements spliced into a base buffer. A delta whose
//! base is the null hash is a full replacement of an empty base.

use vstd::prelude::*;

verus! {

/// Mathematical model of one fragment.
pub ghost struct FragmentView {
    pub start: int,
    pub end: int,
    pub content: Seq<u8>,
}

/// One byte-range replacement: the bytes of the base between `start` and
/// `end` are replaced by `content`.
pub struct Fragment {
    pub start: usize,
    pub end: usize,
    pub content: Vec<u8>,
}

impl View for Fragment {
    type V = FragmentView;

    open spec fn view(&self) -> FragmentView {
        FragmentView { start: self.start as int, end: self.end as int, content: self.content@ }
    }
}

/// A patch: an ordered list of non-overlapping fragments.
pub struct Delta {
    pub frags: Vec<Fragment>,
}

impl View for Delta {
    type V = Seq<FragmentView>;

    open spec fn view(&self) -> Seq<FragmentView> {
        Seq::new(self.frags@.len(), |i: int| self.frags@[i]@)
    }
}

/// Fragments are in range for a base of length `base_len`, ordered, and
/// non-overlapping.
pub open spec fn frags_wf(frags: Seq<FragmentView>, base_len: int) -> bool {
    &&& forall|i: int|
        0 <= i < frags.len() ==> 0 <= (#[trigger] frags[i]).start <= frags[i].end <= base_len
    &&& forall|i: int|
        0 <= i < frags.len() - 1 ==> (#[trigger] frags[i]).end <= frags[i + 1].start
}

/// The result of splicing `frags` into `base`, where the portion of `base`
/// before `from` has already been consumed.
pub open spec fn spec_apply_from(base: Seq<u8>, frags: Seq<FragmentView>, from: int) -> Seq<u8>
    decreases frags.len(),
{
    if frags.len() == 0 {
        base.subrange(from, base.len() as int)
    } else {
        base.subrange(from, frags[0].start) + frags[0].content + spec_apply_from(
            base,
            frags.drop_first(),
            frags[0].end,
        )
    }
}

/// The result of applying a delta to a base buffer.
pub open spec fn spec_apply(base: Seq<u8>, frags: Seq<FragmentView>) -> Seq<u8> {
    spec_apply_from(base, frags, 0)
}

/// A full-text delta against an empty base yields exactly its content.
pub proof fn lemma_fulltext_apply(content: Seq<u8>)
    ensures
        spec_apply(Seq::<u8>::empty(), seq![FragmentView { start: 0, end: 0, content }])
            == content,
{
    let frags = seq![FragmentView { start: 0, end: 0, content }];
    assert(frags.drop_first() =~= Seq::<FragmentView>::empty());
    assert(spec_apply_from(Seq::<u8>::empty(), frags.drop_first(), 0) =~= Seq::<u8>::empty());
    assert(spec_apply(Seq::<u8>::empty(), frags) =~= content);
}

impl Delta {
    /// Well-formedness against a base of length `base_len`.
    pub open spec fn wf(&self, base_len: int) -> bool {
        frags_wf(self@, base_len)
    }

    /// A delta that replaces the whole (empty) base by `content`.
    pub fn new_fulltext(content: Vec<u8>) -> (r: Delta)
        ensures
            r@ == seq![FragmentView { start: 0, end: 0, content: content@ }],
            r.wf(0),
    {
        let mut frags: Vec<Fragment> = Vec::new();
        frags.push(Fragment { start: 0, end: 0, content });
        let r = Delta { frags };
        proof {
            assert(r@ =~= seq![FragmentView { start: 0, end: 0, content: r.frags@[0].content@ }]);
        }
        r
    }

    /// The fragments of this delta.
    pub fn fragments(&self) -> (r: &Vec<Fragment>)
        ensures
            r == self.frags,
    {
        &self.frags
    }
}

/// Applies a delta to a base buffer.
pub fn apply(base: &Vec<u8>, delta: &Delta) -> (r: Vec<u8>)
    requires
        delta.wf(base@.len() as int),
    ensures
        r@ == spec_apply(base@, delta@),
{
    let ghost all = delta@;
    let mut out: Vec<u8> = Vec::new();
    let mut cursor: usize = 0;
    let mut k: usize = 0;
    proof {
        assert(all.skip(0) =~= all);
        assert(out@ + spec_apply_from(base@, all, 0) =~= spec_apply_from(base@, all, 0));
    }
    while k < delta.frags.len()
        invariant
            frags_wf(all, base@.len() as int),
            all == delta@,
            all.len() == delta.frags@.len(),
            k <= delta.frags@.len(),
            cursor <= base@.len(),
            k < all.len() ==> cursor <= all[k as int].start,
            spec_apply(base@, all) == out@ + spec_apply_from(base@, all.skip(k as int), cursor as int),
        decreases delta.frags@.len() - k,
    {
        let ghost rest = all.skip(k as int);
        let ghost cursor0 = cursor as int;
        proof {
            assert(rest[0] == all[k as int]);
            assert(rest.drop_first() =~= all.skip(k as int + 1));
        }
        let frag = &delta.frags[k];
        // Copy the unchanged bytes of the base up to the fragment start.
        let ghost out_pre = out@;
        let mut j: usize = cursor;
        while j < frag.start
            invariant
                cursor <= j <= frag@.start <= base@.len(),
                frag@.start == frag.start as int,
                out@ == out_pre + base@.subrange(cursor as int, j as int),
            decreases frag.start - j,
        {
            proof {
                assert(base@.subrange(cursor as int, j as int + 1)
                    =~= base@.subrange(cursor as int, j as int) + seq![base@[j as int]]);
            }
            out.push(base[j]);
            j = j + 1;
        }
        proof {
            assert(base@.subrange(cursor as int, cursor as int) =~= Seq::<u8>::empty());
        }
        // Copy the fragment content.
        let mut c: usize = 0;
        let ghost out_before = out@;
        while c < frag.content.len()
            invariant
                c <= frag.content@.len(),
                frag.content@ == frag@.content,
                out@ == out_before + frag@.content.subrange(0, c as int),
            decreases frag.content@.len() - c,
        {
            proof {
                assert(frag@.content.subrange(0, c as int + 1)
                    =~= frag@.content.subrange(0, c as int) + seq![frag@.content[c as int]]);
            }
            out.push(frag.content[c]);
            c = c + 1;
        }
        proof {
            assert(frag@.content.subrange(0, frag@.content.len() as int) =~= frag@.content);
        }
        cursor = frag.end;
        k = k + 1;
        proof {
            if k < all.len() {
                assert(all[k as int - 1].end <= all[k as int].start);
            }
            assert(frag@ == all[k as int - 1]);
            assert(spec_apply_from(base@, rest, cursor0)
                == base@.subrange(cursor0, frag@.start) + frag@.content
                    + spec_apply_from(base@, all.skip(k as int), frag@.end));
            assert(out@ =~= out_pre + (base@.subrange(cursor0, frag@.start) + frag@.content));
            assert(out@ + spec_apply_from(base@, all.skip(k as int), cursor as int)
                =~= out_pre + (base@.subrange(cursor0, frag@.start) + frag@.content
                    + spec_apply_from(base@, all.skip(k as int), cursor as int)));
        }
    }
    proof {
        assert(all.skip(all.len() as int) =~= Seq::<FragmentView>::empty());
    }
    // Copy the remaining tail of the base.
    let ghost out_before_tail = out@;
    let mut j: usize = cursor;
    while j < base.len()
        invariant
            cursor <= j <= base@.len(),
            out@ == out_before_tail + base@.subrange(cursor as int, j as int),
        decreases base@.len() - j,
    {
        proof {
            assert(base@.subrange(cursor as int, j as int + 1)
                =~= base@.subrange(cursor as int, j as int) + seq![base@[j as int]]);
        }
        out.push(base[j]);
        j = j + 1;
    }
    proof {
        assert(out@ == spec_apply(base@, all));
    }
    out
}

} // verus!
