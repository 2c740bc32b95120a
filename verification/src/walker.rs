//! The directory walk: a step machine that turns an opened source into the
//! ordered directory list. The machine never reads bytes itself; it names
//! the byte range it needs next, and the caller hands the bytes back. One
//! step consumes one read: the header, a directory's entry count, a
//! directory's body, or one out-of-line value. Revisiting a directory
//! offset, an absurd entry count, and a range past the 64-bit address space
//! are refused, so the walk cannot cycle.

use crate::data::DataView;
use crate::error::TiffError;
use crate::ifd::Ifd;
use crate::parser::{
    spec_endian, spec_ent_size, spec_header, spec_header_size, spec_ifd_body, spec_ptr_size,
    DataOffset, Parser, MAX_IFD_ENTRIES,
};
use vstd::prelude::*;

verus! {

/// Where the walk stands: before the header, before a directory's entry
/// count, before a directory's body, loading out-of-line values, or done.
pub enum WalkState {
    Start,
    AtIfd { p: Parser, at: u64 },
    AtBody { p: Parser, at: u64, count: u64 },
    Loading { p: Parser, ifd: Ifd, pending: Vec<DataOffset>, done: usize, next: Option<u64> },
    Finished,
}

/// The walk: its state, the byte range it wants next (`None` once done or
/// aborted), the directories decoded so far, and the directory offsets
/// already visited, kept to refuse cycles.
pub struct TiffWalker {
    pub state: WalkState,
    pub req: Option<(u64, u64)>,
    pub ifds: Vec<Ifd>,
    pub visited: Vec<u64>,
}

impl TiffWalker {
    /// Well-formedness: the pending request matches the state.
    pub open spec fn wf(self) -> bool {
        match self.state {
            WalkState::Start => self.req == Some((0u64, 16u64)),
            WalkState::AtIfd { p, at } => at + spec_header_size(p) <= u64::MAX && self.req == Some(
                (at, (at + spec_header_size(p)) as u64),
            ),
            WalkState::AtBody { p, at, count } => count <= MAX_IFD_ENTRIES && at
                + spec_header_size(p) + count * spec_ent_size(p) + spec_ptr_size(p) <= u64::MAX
                && self.req == Some(
                ((at + spec_header_size(p)) as u64, (at + spec_header_size(p) + count
                    * spec_ent_size(p) + spec_ptr_size(p)) as u64),
            ),
            WalkState::Loading { p, ifd, pending, done, next } => done < pending@.len()
                && pending@[done as int].offset + pending@[done as int].length <= u64::MAX
                && self.req == Some(
                (pending@[done as int].offset, (pending@[done as int].offset
                    + pending@[done as int].length) as u64),
            ),
            WalkState::Finished => self.req is None,
        }
    }

    /// A fresh walk: it wants the sixteen header bytes first.
    pub fn new() -> (w: TiffWalker)
        ensures
            w.wf(),
            w.state is Start,
            w.req == Some((0u64, 16u64)),
            w.ifds@.len() == 0,
            w.visited@.len() == 0,
    {
        TiffWalker { state: WalkState::Start, req: Some((0, 16)), ifds: Vec::new(), visited: Vec::new() }
    }

    /// The byte range the walk wants next: inclusive start, exclusive end.
    pub fn request(&self) -> (r: Option<(u64, u64)>)
        ensures
            r == self.req,
    {
        self.req
    }

    /// Whether the walk has ended.
    pub fn finished(&self) -> (r: bool)
        ensures
            r == (self.state is Finished),
    {
        match self.state {
            WalkState::Finished => true,
            _ => false,
        }
    }

    /// The decoded directories, in file order.
    pub fn into_tiff(self) -> (r: Vec<Ifd>)
        ensures
            r@ == self.ifds@,
    {
        self.ifds
    }

    /// Consumes the bytes of the pending request and advances the walk.
    /// The contract restates, state by state, what the parser yields on the
    /// bytes; any parse failure ends the walk with that error.
    pub fn step(&mut self, buf: &[u8]) -> (r: Result<(), TiffError>)
        requires
            old(self).wf(),
            !(old(self).state is Finished),
            buf@.len() == old(self).req->Some_0.1 - old(self).req->Some_0.0,
        ensures
            final(self).wf(),
            r is Err ==> final(self).state is Finished && final(self).req is None
                && final(self).ifds@ == old(self).ifds@,
            match old(self).state {
                WalkState::Start => match spec_header(buf@) {
                    Err(e) => r == Err::<(), TiffError>(e),
                    Ok((p, off)) => if off + spec_header_size(p) <= u64::MAX {
                        &&& r is Ok
                        &&& final(self).state == (WalkState::AtIfd { p, at: off })
                        &&& final(self).ifds@ == old(self).ifds@
                        &&& final(self).visited@ == old(self).visited@.push(off)
                    } else {
                        r == Err::<(), TiffError>(TiffError::StructureBroken)
                    },
                },
                WalkState::AtIfd { p, at } => {
                    let count = crate::bytes::word(spec_endian(p), buf@) as u64;
                    if count > MAX_IFD_ENTRIES || at + spec_header_size(p) + count * spec_ent_size(
                        p,
                    ) + spec_ptr_size(p) > u64::MAX {
                        r == Err::<(), TiffError>(TiffError::StructureBroken)
                    } else {
                        &&& r is Ok
                        &&& final(self).state == (WalkState::AtBody { p, at, count })
                        &&& final(self).ifds@ == old(self).ifds@
                        &&& final(self).visited@ == old(self).visited@
                    }
                },
                WalkState::AtBody { p, at, count } => match spec_ifd_body(p, count, buf@) {
                    Err(e) => r == Err::<(), TiffError>(e),
                    Ok(t) => if t.1.len() == 0 {
                        spec_advance_post(*old(self), p, t.0, t.2, *final(self), r)
                    } else {
                        if t.1[0].offset + t.1[0].length > u64::MAX {
                            r == Err::<(), TiffError>(TiffError::StructureBroken)
                        } else {
                            &&& r is Ok
                            &&& final(self).state matches WalkState::Loading {
                                p: p2,
                                ifd,
                                pending,
                                done,
                                next,
                            } && p2 == p && ifd@ == t.0 && pending@ == t.1 && done == 0 && next
                                == t.2
                            &&& final(self).ifds@ == old(self).ifds@
                            &&& final(self).visited@ == old(self).visited@
                        }
                    },
                },
                WalkState::Loading { p, ifd, pending, done, next } => {
                    let rec = pending@[done as int];
                    match crate::parser::spec_entry(spec_endian(p), rec.count, rec.data_type, buf@) {
                        Err(e) => r == Err::<(), TiffError>(e),
                        Ok(d) => {
                            let m = ifd@.insert(rec.tag, d);
                            if done + 1 == pending@.len() {
                                spec_advance_post(*old(self), p, m, next, *final(self), r)
                            } else {
                                if pending@[done + 1].offset + pending@[done + 1].length
                                    > u64::MAX {
                                    r == Err::<(), TiffError>(TiffError::StructureBroken)
                                } else {
                                    &&& r is Ok
                                    &&& final(self).state matches WalkState::Loading {
                                        p: p2,
                                        ifd: ifd2,
                                        pending: pending2,
                                        done: done2,
                                        next: next2,
                                    } && p2 == p && ifd2@ == m && pending2@ == pending@ && done2
                                        == done + 1 && next2 == next
                                    &&& final(self).ifds@ == old(self).ifds@
                                    &&& final(self).visited@ == old(self).visited@
                                }
                            }
                        },
                    }
                },
                WalkState::Finished => false,
            },
    {
        let mut st = WalkState::Finished;
        std::mem::swap(&mut st, &mut self.state);
        self.req = None;
        match st {
            WalkState::Start => {
                match Parser::header(buf) {
                    Ok((p, off)) => {
                        let hdr = self.header_size(p);
                        if off > u64::MAX - hdr {
                            return Err(TiffError::StructureBroken);
                        }
                        self.visited.push(off);
                        self.state = WalkState::AtIfd { p, at: off };
                        self.req = Some((off, off + hdr));
                        Ok(())
                    }
                    Err(e) => Err(e),
                }
            }
            WalkState::AtIfd { p, at } => {
                let count = match p.ifd_count(buf) {
                    Ok(c) => c,
                    Err(e) => {
                        return Err(e);
                    }
                };
                proof {
                    assert(buf@.subrange(0, spec_header_size(p) as int) =~= buf@);
                }
                if count > MAX_IFD_ENTRIES {
                    return Err(TiffError::StructureBroken);
                }
                let size = p.size();
                let body = count * size.ent_size + size.next_ifd_ofs_size;
                let hdr = size.ifd_header;
                if at > u64::MAX - hdr || at + hdr > u64::MAX - body {
                    return Err(TiffError::StructureBroken);
                }
                self.state = WalkState::AtBody { p, at, count };
                self.req = Some((at + hdr, at + hdr + body));
                Ok(())
            }
            WalkState::AtBody { p, at, count } => {
                match p.ifd_body(count, buf) {
                    Ok((ifd, pending, next)) => {
                        if pending.len() == 0 {
                            self.advance(p, ifd, next)
                        } else {
                            let first = pending[0];
                            if first.offset > u64::MAX - first.length {
                                return Err(TiffError::StructureBroken);
                            }
                            self.req = Some((first.offset, first.offset + first.length));
                            self.state = WalkState::Loading { p, ifd, pending, done: 0, next };
                            Ok(())
                        }
                    }
                    Err(e) => Err(e),
                }
            }
            WalkState::Loading { p, mut ifd, pending, done, next } => {
                proof {
                    assert(done < pending@.len());
                }
                let rec = pending[done];
                let n_pending = pending.len();
                match p.entry(rec.count, rec.data_type, buf) {
                    Ok(d) => {
                        ifd.insert(rec.tag, d);
                        if done + 1 == n_pending {
                            self.advance(p, ifd, next)
                        } else {
                            let nxt = pending[done + 1];
                            if nxt.offset > u64::MAX - nxt.length {
                                return Err(TiffError::StructureBroken);
                            }
                            self.req = Some((nxt.offset, nxt.offset + nxt.length));
                            self.state = WalkState::Loading {
                                p,
                                ifd,
                                pending,
                                done: done + 1,
                                next,
                            };
                            Ok(())
                        }
                    }
                    Err(e) => Err(e),
                }
            }
            WalkState::Finished => {
                proof {
                    assert(false);
                }
                Err(TiffError::StructureBroken)
            }
        }
    }

    /// The directory header size of a flavor, as a value.
    fn header_size(&self, p: Parser) -> (r: u64)
        ensures
            r == spec_header_size(p),
    {
        match p {
            Parser::Classic(_) => 2,
            Parser::Big(_) => 8,
        }
    }

    /// Files the completed directory and either follows the next-directory
    /// offset or ends the walk; a revisited offset or an offset too near the
    /// end of the address space aborts.
    fn advance(&mut self, p: Parser, ifd: Ifd, next: Option<u64>) -> (r: Result<(), TiffError>)
        requires
            old(self).state is Finished,
            old(self).req is None,
        ensures
            final(self).wf(),
            spec_advance_post(*old(self), p, ifd@, next, *final(self), r),
            r is Err ==> final(self).state is Finished && final(self).req is None
                && final(self).ifds@ == old(self).ifds@,
    {
        match next {
            None => {
                self.ifds.push(ifd);
                proof {
                    assert(self.ifds@.drop_last() =~= old(self).ifds@);
                }
                Ok(())
            }
            Some(o) => {
                let seen = contains_u64(&self.visited, o);
                let hdr = self.header_size(p);
                if seen || o > u64::MAX - hdr {
                    return Err(TiffError::StructureBroken);
                }
                self.ifds.push(ifd);
                self.visited.push(o);
                self.state = WalkState::AtIfd { p, at: o };
                self.req = Some((o, o + hdr));
                proof {
                    assert(self.ifds@.drop_last() =~= old(self).ifds@);
                }
                Ok(())
            }
        }
    }
}

/// What filing a completed directory with contents `m` does: with no next
/// offset the walk ends; with a fresh next offset the walk turns to it; a
/// revisited or overflowing offset aborts the walk, filing nothing.
pub open spec fn spec_advance_post(
    pre: TiffWalker,
    p: Parser,
    m: Map<u16, DataView>,
    next: Option<u64>,
    post: TiffWalker,
    r: Result<(), TiffError>,
) -> bool {
    match next {
        None => {
            &&& r is Ok
            &&& post.state is Finished
            &&& post.req is None
            &&& post.ifds@.len() == pre.ifds@.len() + 1
            &&& post.ifds@.drop_last() == pre.ifds@
            &&& post.ifds@.last()@ == m
            &&& post.visited@ == pre.visited@
        },
        Some(o) => if pre.visited@.contains(o) || o + spec_header_size(p) > u64::MAX {
            &&& r == Err::<(), TiffError>(TiffError::StructureBroken)
            &&& post.state is Finished
            &&& post.req is None
            &&& post.ifds@ == pre.ifds@
        } else {
            &&& r is Ok
            &&& post.state == (WalkState::AtIfd { p, at: o })
            &&& post.ifds@.len() == pre.ifds@.len() + 1
            &&& post.ifds@.drop_last() == pre.ifds@
            &&& post.ifds@.last()@ == m
            &&& post.visited@ == pre.visited@.push(o)
        },
    }
}

/// Whether the vector holds the value.
fn contains_u64(v: &Vec<u64>, x: u64) -> (r: bool)
    ensures
        r == v@.contains(x),
{
    let n = v.len();
    let mut k: usize = 0;
    while k < n
        invariant
            k <= n == v@.len(),
            forall|m: int| 0 <= m < k ==> v@[m] != x,
        decreases n - k,
    {
        if v[k] == x {
            return true;
        }
        k = k + 1;
    }
    proof {
        if v@.contains(x) {
            let w = choose|w: int| 0 <= w < v@.len() && v@[w] == x;
        }
    }
    false
}

} // verus!
