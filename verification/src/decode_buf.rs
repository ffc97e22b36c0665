//! A byte buffer read from the front, with a stack of limits: while a limit
//! is pushed, reads see only as many bytes as the top limit allows, and every
//! read counts against it.
use vstd::prelude::*;
use vstd::slice::slice_subrange;

verus! {

/// The state of a `DecodeBuf`: the bytes not yet read, and the limits, the
/// last one on top.
pub struct BufView {
    pub rest: Seq<u8>,
    pub limits: Seq<usize>,
}

impl BufView {
    /// How many bytes reads may still see.
    pub open spec fn remaining(self) -> nat {
        if self.limits.len() > 0 && (self.limits.last() as nat) < self.rest.len() {
            self.limits.last() as nat
        } else {
            self.rest.len()
        }
    }

    /// The bytes reads may still see.
    pub open spec fn window(self) -> Seq<u8> {
        self.rest.take(self.remaining() as int)
    }

    /// The state after `cnt` bytes of the window are read.
    pub open spec fn advance(self, cnt: nat) -> BufView {
        BufView {
            rest: self.rest.skip(cnt as int),
            limits: if self.limits.len() > 0 {
                self.limits.update(self.limits.len() - 1, (self.limits.last() - cnt) as usize)
            } else {
                self.limits
            },
        }
    }

    /// The state after a limit is pushed; `None` where the limit exceeds the
    /// one below it.
    pub open spec fn push_limit(self, limit: usize) -> Option<BufView> {
        if self.limits.len() > 0 {
            if limit > self.limits.last() {
                None
            } else {
                Some(
                    BufView {
                        rest: self.rest,
                        limits: self.limits.update(self.limits.len() - 1, (self.limits.last() - limit) as usize).push(limit),
                    },
                )
            }
        } else {
            Some(BufView { rest: self.rest, limits: self.limits.push(limit) })
        }
    }

    /// The state after the top limit is dropped; no change without one.
    pub open spec fn pop_limit(self) -> BufView {
        if self.limits.len() > 0 {
            BufView { rest: self.rest, limits: self.limits.drop_last() }
        } else {
            self
        }
    }
}

/// `b2` is a state that reads from `b` can reach: a suffix of its bytes,
/// no more than `b` let reads see, with the limits below the top unchanged
/// and the top lowered at least by the bytes read.
pub open spec fn follows(b2: BufView, b: BufView) -> bool {
    let k = b.rest.len() - b2.rest.len();
    &&& b2.rest.len() <= b.rest.len()
    &&& b2.rest == b.rest.skip(k)
    &&& k <= b.remaining()
    &&& b2.limits.len() == b.limits.len()
    &&& forall|i: int| 0 <= i < b.limits.len() - 1 ==> #[trigger] b2.limits[i] == b.limits[i]
    &&& b.limits.len() > 0 ==> b2.limits.last() + k <= b.limits.last()
}

/// What reads see shrinks by at least what they read.
pub proof fn lemma_follows_remaining(b2: BufView, b: BufView)
    requires
        follows(b2, b),
    ensures
        b2.remaining() + (b.rest.len() - b2.rest.len()) <= b.remaining(),
{
}

pub proof fn lemma_follows_refl(b: BufView)
    ensures
        follows(b, b),
{
    assert(b.rest.skip(0) == b.rest);
}

pub proof fn lemma_follows_trans(b3: BufView, b2: BufView, b: BufView)
    requires
        follows(b3, b2),
        follows(b2, b),
    ensures
        follows(b3, b),
{
    lemma_follows_remaining(b2, b);
    let k1 = b.rest.len() - b2.rest.len();
    let k2 = b2.rest.len() - b3.rest.len();
    assert(b3.rest == b.rest.skip(k1 + k2));
    assert forall|i: int| 0 <= i < b.limits.len() - 1 implies #[trigger] b3.limits[i] == b.limits[i] by {
        assert(b3.limits[i] == b2.limits[i]);
    }
}

/// Reading `n` bytes of the window.
pub proof fn lemma_advance(b: BufView, n: nat)
    requires
        n <= b.remaining(),
    ensures
        follows(b.advance(n), b),
        b.advance(n).rest.len() == b.rest.len() - n,
        b.advance(n).remaining() == b.remaining() - n,
        b.advance(n).window() == b.window().skip(n as int),
{
    let b2 = b.advance(n);
    assert(b2.rest.len() == b.rest.len() - n);
    assert forall|i: int| 0 <= i < b.limits.len() - 1 implies #[trigger] b2.limits[i] == b.limits[i] by {}
    assert(b2.window() =~= b.window().skip(n as int));
}

/// A limit pushed lets reads see no more than before, and once it is
/// dropped again the state follows the one before the push.
pub proof fn lemma_push_pop(b: BufView, limit: usize, q: BufView)
    requires
        b.push_limit(limit) is Some,
        follows(q, b.push_limit(limit).unwrap()),
    ensures
        b.push_limit(limit).unwrap().remaining() <= b.remaining(),
        follows(q.pop_limit(), b),
{
    let p = b.push_limit(limit).unwrap();
    lemma_follows_remaining(q, p);
    let qp = q.pop_limit();
    assert(qp.limits.len() == b.limits.len());
    if b.limits.len() > 0 {
        assert forall|i: int| 0 <= i < b.limits.len() - 1 implies #[trigger] qp.limits[i] == b.limits[i] by {
            assert(qp.limits[i] == q.limits[i]);
            assert(q.limits[i] == p.limits[i]);
        }
        assert(qp.limits.last() == q.limits[b.limits.len() - 1]);
        assert(q.limits[b.limits.len() - 1] == p.limits[b.limits.len() - 1]);
    }
}

/// A limit pushed, as many bytes read as it allows, and the limit dropped
/// again: the same as reading those bytes without the limit, where the bytes
/// are there.
pub proof fn law_push_read_pop(b: BufView, limit: usize)
    requires
        b.push_limit(limit) is Some,
        limit <= b.rest.len(),
    ensures
        limit <= b.remaining(),
        limit <= b.push_limit(limit).unwrap().remaining(),
        b.push_limit(limit).unwrap().advance(limit as nat).pop_limit() == b.advance(limit as nat),
{
    let p = b.push_limit(limit).unwrap();
    let q = p.advance(limit as nat).pop_limit();
    let r = b.advance(limit as nat);
    assert(q.rest == r.rest);
    if b.limits.len() > 0 {
        assert(q.limits =~= r.limits);
    } else {
        assert(q.limits =~= r.limits);
    }
}

/// The state with its bottom limit dropped: the same bytes, and the limits
/// above the bottom one.
pub open spec fn drop_bottom(b: BufView) -> BufView {
    BufView { rest: b.rest, limits: b.limits.skip(1) }
}

/// Above the bottom limit, dropping it changes nothing that reads see.
pub proof fn lemma_drop_bottom_inner(b: BufView)
    requires
        b.limits.len() >= 2,
    ensures
        drop_bottom(b).limits.len() == b.limits.len() - 1,
        drop_bottom(b).limits.last() == b.limits.last(),
        drop_bottom(b).remaining() == b.remaining(),
        drop_bottom(b).window() == b.window(),
{
}

/// With the bottom limit the only one, dropping it lets reads see more: what
/// they saw before is the front of what they see after.
pub proof fn lemma_drop_bottom_outer(b: BufView)
    requires
        b.limits.len() == 1,
    ensures
        drop_bottom(b).limits.len() == 0,
        b.remaining() <= drop_bottom(b).remaining(),
        drop_bottom(b).remaining() == b.rest.len(),
        b.window() == drop_bottom(b).window().take(b.remaining() as int),
{
    assert(drop_bottom(b).limits =~= Seq::<usize>::empty());
    assert(b.window() =~= drop_bottom(b).window().take(b.remaining() as int));
}

/// Reading bytes commutes with dropping the bottom limit.
pub proof fn lemma_drop_bottom_advance(b: BufView, n: nat)
    requires
        b.limits.len() >= 1,
    ensures
        drop_bottom(b.advance(n)) == drop_bottom(b).advance(n),
        b.advance(n).limits.len() == b.limits.len(),
{
    let l = b.advance(n);
    let u = drop_bottom(b).advance(n);
    assert(drop_bottom(l).limits =~= u.limits);
}

/// Pushing a limit commutes with dropping the bottom limit; above the bottom
/// limit, it fails exactly where it fails with it.
pub proof fn lemma_drop_bottom_push(b: BufView, limit: usize)
    requires
        b.limits.len() >= 1,
    ensures
        b.limits.len() >= 2 ==> (b.push_limit(limit) is Some <==> drop_bottom(b).push_limit(limit) is Some),
        b.push_limit(limit) is Some ==> {
            &&& drop_bottom(b).push_limit(limit) is Some
            &&& drop_bottom(b.push_limit(limit).unwrap()) == drop_bottom(b).push_limit(limit).unwrap()
            &&& b.push_limit(limit).unwrap().limits.len() == b.limits.len() + 1
        },
{
    if b.push_limit(limit) is Some {
        let l = b.push_limit(limit).unwrap();
        let u = drop_bottom(b).push_limit(limit).unwrap();
        assert(drop_bottom(l).limits =~= u.limits);
    }
}

/// Dropping the top limit commutes with dropping the bottom one, while there
/// are two.
pub proof fn lemma_drop_bottom_pop(b: BufView)
    requires
        b.limits.len() >= 2,
    ensures
        drop_bottom(b.pop_limit()) == drop_bottom(b).pop_limit(),
        b.pop_limit().limits.len() == b.limits.len() - 1,
{
    assert(drop_bottom(b.pop_limit()).limits =~= drop_bottom(b).pop_limit().limits);
}

/// Pushing a limit would exceed the limit below it.
#[derive(Debug, Clone, Copy, PartialEq, Eq, Structural)]
pub struct LimitTooLarge;

/// A byte buffer with a stack of read limits.
#[derive(Debug)]
pub struct DecodeBuf {
    data: Vec<u8>,
    pos: usize,
    limit_stack: Vec<usize>,
}

impl View for DecodeBuf {
    type V = BufView;

    closed spec fn view(&self) -> BufView {
        BufView { rest: self.data@.skip(self.pos as int), limits: self.limit_stack@ }
    }
}

impl DecodeBuf {
    /// The read position never passes the end of the data.
    pub closed spec fn wf(&self) -> bool {
        self.pos <= self.data@.len()
    }

    /// A buffer over `data` without limits.
    pub fn new(data: Vec<u8>) -> (res: DecodeBuf)
        ensures
            res.wf(),
            res@.rest == data@,
            res@.limits == Seq::<usize>::empty(),
    {
        let res = DecodeBuf { data, pos: 0, limit_stack: Vec::new() };
        proof {
            assert(res.data@.skip(0) == res.data@);
        }
        res
    }

    /// Pushes a limit; the limit below it, if any, is lowered by as much and
    /// must not fall below zero.
    pub fn push_limit(&mut self, limit: usize) -> (res: Result<(), LimitTooLarge>)
        requires
            old(self).wf(),
        ensures
            final(self).wf(),
            match old(self)@.push_limit(limit) {
                Some(b) => res is Ok && final(self)@ == b,
                None => res is Err && final(self)@ == old(self)@,
            },
    {
        let n = self.limit_stack.len();
        if n > 0 {
            let prev = self.limit_stack[n - 1];
            if limit > prev {
                return Err(LimitTooLarge);
            }
            self.limit_stack.set(n - 1, prev - limit);
        }
        self.limit_stack.push(limit);
        Ok(())
    }

    /// Whether there is a limit and all of it has been read.
    pub fn limit_reached(&self) -> (res: bool)
        requires
            self.wf(),
        ensures
            res == (self@.limits.len() > 0 && self@.limits.last() == 0),
    {
        let n = self.limit_stack.len();
        n > 0 && self.limit_stack[n - 1] == 0
    }

    /// Drops the top limit.
    pub fn pop_limit(&mut self)
        requires
            old(self).wf(),
        ensures
            final(self).wf(),
            final(self)@ == old(self)@.pop_limit(),
    {
        let _ = self.limit_stack.pop();
    }

    /// How many bytes reads may still see.
    pub fn remaining(&self) -> (res: usize)
        requires
            self.wf(),
        ensures
            res == self@.remaining(),
    {
        let available = self.data.len() - self.pos;
        let n = self.limit_stack.len();
        if n > 0 && self.limit_stack[n - 1] < available {
            self.limit_stack[n - 1]
        } else {
            available
        }
    }

    /// Whether reads may still see a byte.
    pub fn has_remaining(&self) -> (res: bool)
        requires
            self.wf(),
        ensures
            res == (self@.remaining() > 0),
    {
        self.remaining() > 0
    }

    /// The bytes reads may still see.
    pub fn chunk(&self) -> (res: &[u8])
        requires
            self.wf(),
        ensures
            res@ == self@.window(),
            res@.len() == self@.remaining(),
    {
        proof {
            assert(self@.rest.len() == self.data@.len() - self.pos);
        }
        let available = self.data.len() - self.pos;
        let count = self.remaining();
        assert(count <= available);
        let end = self.pos + count;
        let res = slice_subrange(self.data.as_slice(), self.pos, end);
        proof {
            assert(res@ == self@.window());
        }
        res
    }

    /// Reads past `cnt` bytes of the window.
    pub fn advance(&mut self, cnt: usize)
        requires
            old(self).wf(),
            cnt <= old(self)@.remaining(),
        ensures
            final(self).wf(),
            final(self)@ == old(self)@.advance(cnt as nat),
            follows(final(self)@, old(self)@),
            final(self)@.remaining() == old(self)@.remaining() - cnt,
            final(self)@.rest.len() == old(self)@.rest.len() - cnt,
    {
        proof {
            lemma_advance(old(self)@, cnt as nat);
        }
        proof {
            assert(old(self)@.rest.len() == old(self).data@.len() - old(self).pos);
        }
        let available = self.data.len() - self.pos;
        assert(cnt <= available);
        self.pos = self.pos + cnt;
        let n = self.limit_stack.len();
        if n > 0 {
            let top = self.limit_stack[n - 1];
            self.limit_stack.set(n - 1, top - cnt);
        }
        proof {
            assert(self.data@.skip(self.pos as int) == old(self).data@.skip(old(self).pos as int).skip(cnt as int));
        }
    }
}

} // verus!
