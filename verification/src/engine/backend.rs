//! Backend: the modern "VGA card". Widgets never touch the terminal: they
//! draw into a `Buffer` and the backend only presents the diff.

use vstd::prelude::*;

use super::buffer::DrawOp;

verus! {

#[verifier::external_type_specification]
#[verifier::external_body]
pub struct ExIoError(std::io::Error);

/// Paint target.
pub trait Backend {
    fn size(&self) -> std::io::Result<(u16, u16)>;

    fn present(&mut self, ops: &[DrawOp]) -> std::io::Result<()>;
}

/// Test backend: fixed size, records what was presented. No TTY.
#[derive(Debug, Default)]
pub struct TestBackend {
    pub w: u16,
    pub h: u16,
    pub seen: Vec<DrawOp>,
}

impl TestBackend {
    pub fn new(w: u16, h: u16) -> (r: Self)
        ensures
            r.w == w,
            r.h == h,
            r.seen@ == Seq::<DrawOp>::empty(),
    {
        TestBackend { w, h, seen: Vec::new() }
    }

    /// Hands over what was recorded since the previous call.
    pub fn take(&mut self) -> (r: Vec<DrawOp>)
        ensures
            r@ == old(self).seen@,
            final(self).seen@ == Seq::<DrawOp>::empty(),
            final(self).w == old(self).w,
            final(self).h == old(self).h,
    {
        let mut out: Vec<DrawOp> = Vec::new();
        std::mem::swap(&mut out, &mut self.seen);
        out
    }
}

impl Backend for TestBackend {
    fn size(&self) -> (r: std::io::Result<(u16, u16)>)
        ensures
            r == Ok::<(u16, u16), std::io::Error>((self.w, self.h)),
    {
        Ok((self.w, self.h))
    }

    fn present(&mut self, ops: &[DrawOp]) -> (r: std::io::Result<()>)
        ensures
            r is Ok,
            final(self).seen@ == old(self).seen@ + ops@,
            final(self).w == old(self).w,
            final(self).h == old(self).h,
    {
        let mut i: usize = 0;
        let ghost s0 = self.seen@;
        while i < ops.len()
            invariant
                i <= ops@.len(),
                self.seen@ == s0 + ops@.subrange(0, i as int),
                self.w == old(self).w,
                self.h == old(self).h,
            decreases ops@.len() - i,
        {
            self.seen.push(ops[i]);
            i += 1;
            assert(self.seen@ =~= s0 + ops@.subrange(0, i as int));
        }
        assert(ops@.subrange(0, ops@.len() as int) =~= ops@);
        Ok(())
    }
}

} // verus!
