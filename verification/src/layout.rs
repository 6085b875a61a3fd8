//! Alignment, and the layout of struct and union members.
use vstd::prelude::*;
use crate::diag::{CompileError, CompileErrorV, abort};
use crate::types::{Member};

verus! {

/// `n` rounded by the mask of `to`: `(n + to - 1) & !(to - 1)`, or `n` when
/// `to` is zero.
pub open spec fn align_spec(n: usize, to: usize) -> usize {
    if to == 0 {
        n
    } else {
        ((n + to - 1) as usize) & !((to - 1) as usize)
    }
}

/// `align_spec(n, to)` can be computed without overflow.
pub open spec fn align_fits(n: usize, to: usize) -> bool {
    to == 0 || n + to - 1 <= usize::MAX
}

pub open spec fn is_pow2_small(to: usize) -> bool {
    to == 1 || to == 2 || to == 4 || to == 8 || to == 16
}

/// `n` rounded up to a multiple of `to`.
pub fn align_to(n: usize, to: usize) -> (r: usize)
    requires
        align_fits(n, to),
    ensures
        r == align_spec(n, to),
{
    if to == 0 {
        n
    } else {
        (n + (to - 1)) & !(to - 1)
    }
}

/// For a power of two `to`, aligning gives the least multiple of `to` that
/// is not below `n`.
pub proof fn lemma_align_pow2(n: usize, to: usize)
    requires
        is_pow2_small(to),
        align_fits(n, to),
    ensures
        align_spec(n, to) % to == 0,
        n <= align_spec(n, to),
        align_spec(n, to) < n + to,
{
    let m = (n + to - 1) as usize;
    if to == 1 {
        assert(m & !0usize == m) by (bit_vector);
    } else if to == 2 {
        assert(m & !1usize == m - m % 2) by (bit_vector);
    } else if to == 4 {
        assert(m & !3usize == m - m % 4) by (bit_vector);
    } else if to == 8 {
        assert(m & !7usize == m - m % 8) by (bit_vector);
    } else {
        assert(m & !15usize == m - m % 16) by (bit_vector);
    }
}

/// The offsets that laying out members of the given sizes and alignments
/// gives, from offset `off` on, with the greatest alignment so far `ma`:
/// each member starts at the next offset aligned for it. `None` when an
/// offset does not fit the machine.
pub open spec fn lay(sa: Seq<(usize, usize)>, off: usize, ma: usize) -> Option<
    (Seq<usize>, usize, usize),
>
    decreases sa.len(),
{
    if sa.len() == 0 {
        Some((Seq::empty(), off, ma))
    } else {
        let sz = sa[0].0;
        let al = sa[0].1;
        if !align_fits(off, al) {
            None
        } else {
            let o = align_spec(off, al);
            if o + sz > usize::MAX {
                None
            } else {
                match lay(
                    sa.drop_first(),
                    (o + sz) as usize,
                    if ma >= al {
                        ma
                    } else {
                        al
                    },
                ) {
                    None => None,
                    Some((os, e, m)) => Some((seq![o] + os, e, m)),
                }
            }
        }
    }
}

/// The sizes and alignments of the members' types.
pub open spec fn size_aligns(ms: Seq<Member>) -> Seq<(usize, usize)> {
    ms.map_values(|m: Member| (m.ty.size, m.ty.align))
}

pub open spec fn cap8(a: usize) -> usize {
    if a > 8 {
        8
    } else {
        a
    }
}

/// The layout of a struct: member offsets, size and alignment.
pub open spec fn struct_layout_spec(ms: Seq<Member>) -> Option<(Seq<usize>, usize, usize)> {
    match lay(size_aligns(ms), 0, 0) {
        None => None,
        Some((os, e, m)) => if align_fits(e, cap8(m)) {
            Some((os, align_spec(e, cap8(m)), cap8(m)))
        } else {
            None
        },
    }
}

pub open spec fn max_size(ms: Seq<Member>) -> usize
    decreases ms.len(),
{
    if ms.len() == 0 {
        0
    } else {
        let rest = max_size(ms.drop_last());
        if rest >= ms.last().ty.size {
            rest
        } else {
            ms.last().ty.size
        }
    }
}

pub open spec fn max_align(ms: Seq<Member>) -> usize
    decreases ms.len(),
{
    if ms.len() == 0 {
        0
    } else {
        let rest = max_align(ms.drop_last());
        if rest >= ms.last().ty.align {
            rest
        } else {
            ms.last().ty.align
        }
    }
}

/// The layout of a union: size and alignment.
pub open spec fn union_layout_spec(ms: Seq<Member>) -> Option<(usize, usize)> {
    let a = cap8(max_align(ms));
    if align_fits(max_size(ms), a) {
        Some((align_spec(max_size(ms), a), a))
    } else {
        None
    }
}

pub open spec fn layout_err() -> CompileErrorV {
    CompileErrorV::Abort { msg: "type too large"@ }
}

/// Gives each member its offset and returns the struct's size and alignment.
pub fn struct_layout(members: &mut Vec<Member>) -> (r: Result<(usize, usize), CompileError>)
    ensures
        match r {
            Ok((size, align)) => struct_layout_spec(old(members)@) matches Some((os, sz, al))
                && size == sz && align == al && final(members)@.len() == old(members)@.len()
                && forall|i: int|
                0 <= i < old(members)@.len() ==> {
                    &&& #[trigger] final(members)@[i].offset == os[i]
                    &&& final(members)@[i].name == old(members)@[i].name
                    &&& final(members)@[i].ty == old(members)@[i].ty
                },
            Err(e) => struct_layout_spec(old(members)@) is None && e@ == layout_err(),
        },
{
    let ghost sa = size_aligns(members@);
    let ghost m0 = members@;
    let mut offset: usize = 0;
    let mut max_al: usize = 0;
    let mut i: usize = 0;
    let ghost mut done: Seq<usize> = Seq::empty();
    proof {
        assert(sa.skip(0) =~= sa);
        assert(done + Seq::<usize>::empty() =~= done);
    }
    while i < members.len()
        invariant
            i <= members@.len(),
            members@.len() == m0.len(),
            m0 == old(members)@,
            sa == size_aligns(m0),
            done.len() == i,
            forall|j: int| 0 <= j < m0.len() ==> (#[trigger] members@[j]).name == m0[j].name,
            forall|j: int| 0 <= j < m0.len() ==> (#[trigger] members@[j]).ty == m0[j].ty,
            forall|j: int| 0 <= j < i ==> #[trigger] members@[j].offset == done[j],
            lay(sa, 0, 0) == match lay(sa.skip(i as int), offset, max_al) {
                None => None,
                Some((os, e, m)) => Some((done + os, e, m)),
            },
        decreases members.len() - i,
    {
        let sz = members[i].ty.size;
        let al = members[i].ty.align;
        assert(sz == m0[i as int].ty.size && al == m0[i as int].ty.align);
        proof {
            assert(sa.skip(i as int)[0] == (m0[i as int].ty.size, m0[i as int].ty.align));
            assert(sa.skip(i as int).drop_first() =~= sa.skip(i + 1));
        }
        if al != 0 && offset > usize::MAX - (al - 1) {
            proof {
                assert(lay(sa.skip(i as int), offset, max_al) is None);
                assert(lay(sa, 0, 0) is None);
            }
            return Err(abort("type too large"));
        }
        let o = align_to(offset, al);
        if o > usize::MAX - sz {
            proof {
                assert(lay(sa.skip(i as int), offset, max_al) is None);
                assert(lay(sa, 0, 0) is None);
            }
            return Err(abort("type too large"));
        }
        if max_al < al {
            max_al = al;
        }
        let ghost old_done = done;
        members[i].offset = o;
        proof {
            done = done.push(o);
            assert forall|os: Seq<usize>| old_done + (seq![o] + os) =~= done + os by {}
        }
        offset = o + sz;
        i += 1;
    }
    proof {
        assert(sa.skip(i as int).len() == 0);
        assert(done + Seq::<usize>::empty() =~= done);
    }
    let ghost max_al_before_cap = max_al;
    proof {
        assert(lay(sa.skip(i as int), offset, max_al) == Some((Seq::<usize>::empty(), offset, max_al)));
        assert(lay(sa, 0, 0) == Some((done, offset, max_al)));
    }
    if max_al > 8 {
        max_al = 8;
    }
    if max_al != 0 && offset > usize::MAX - (max_al - 1) {
        return Err(abort("type too large"));
    }
    let size = align_to(offset, max_al);
    proof {
        assert(lay(sa, 0, 0) == Some((done, offset, max_al_before_cap)));
    }
    Ok((size, max_al))
}

/// The size and alignment of a union of the given members.
pub fn union_layout(members: &Vec<Member>) -> (r: Result<(usize, usize), CompileError>)
    ensures
        match r {
            Ok((size, align)) => union_layout_spec(members@) == Some((size, align)),
            Err(e) => union_layout_spec(members@) is None && e@ == layout_err(),
        },
{
    let mut ms: usize = 0;
    let mut ma: usize = 0;
    let mut i: usize = 0;
    while i < members.len()
        invariant
            i <= members@.len(),
            ms == max_size(members@.take(i as int)),
            ma == max_align(members@.take(i as int)),
        decreases members.len() - i,
    {
        proof {
            assert(members@.take(i + 1).drop_last() =~= members@.take(i as int));
            assert(members@.take(i + 1).last() == members@[i as int]);
        }
        if ms < members[i].ty.size {
            ms = members[i].ty.size;
        }
        if ma < members[i].ty.align {
            ma = members[i].ty.align;
        }
        i += 1;
    }
    proof {
        assert(members@.take(i as int) =~= members@);
    }
    if ma > 8 {
        ma = 8;
    }
    if ma != 0 && ms > usize::MAX - (ma - 1) {
        return Err(abort("type too large"));
    }
    Ok((align_to(ms, ma), ma))
}

} // verus!
