//! Flat contract state: a byte vector bounded by `MAX_CONTRACT_STATE`,
//! readable and writable at arbitrary offsets and resizable up to the bound.

use vstd::prelude::*;
use crate::bytes::{copy_into, splice};
use crate::errors::StateError;

verus! {

/// Upper bound, in bytes, on the size of a contract's flat state.
pub const MAX_CONTRACT_STATE: u32 = 16384;

/// Smart contract state.
#[derive(Debug)]
pub struct State {
    pub state: Vec<u8>,
}

/// The state after writing `data` at `offset`: the write is clamped at
/// `MAX_CONTRACT_STATE`, and the state is zero-extended first when the write
/// reaches past its current end.
pub open spec fn write_state_spec(s: Seq<u8>, offset: int, data: Seq<u8>) -> Seq<u8> {
    let end = if offset + data.len() <= MAX_CONTRACT_STATE as int {
        offset + data.len()
    } else {
        MAX_CONTRACT_STATE as int
    };
    let n = if s.len() >= end {
        s.len() as int
    } else {
        end
    };
    Seq::new(
        n as nat,
        |i: int| if offset <= i < end {
            data[i - offset]
        } else if i < s.len() {
            s[i]
        } else {
            0u8
        },
    )
}

/// The number of bytes such a write stores.
pub open spec fn write_state_amount(s: Seq<u8>, offset: int, data: Seq<u8>) -> int {
    if offset + data.len() <= MAX_CONTRACT_STATE as int {
        data.len() as int
    } else {
        MAX_CONTRACT_STATE as int - offset
    }
}

impl State {
    /// The state never exceeds the bound.
    pub open spec fn wf(&self) -> bool {
        self@.len() <= MAX_CONTRACT_STATE
    }

    /// Whether the state holds no bytes.
    pub fn is_empty(&self) -> (r: bool)
        ensures
            r == (self@.len() == 0),
    {
        self.state.is_empty()
    }

    /// A fresh state, empty or copied from the given bytes.
    pub fn new(st: Option<&[u8]>) -> (r: State)
        requires
            st is Some ==> st.unwrap()@.len() <= MAX_CONTRACT_STATE,
        ensures
            r.wf(),
            r@ == (match st {
                None => Seq::<u8>::empty(),
                Some(bytes) => bytes@,
            }),
    {
        match st {
            None => State { state: Vec::new() },
            Some(bytes) => {
                let mut v: Vec<u8> = Vec::new();
                crate::bytes::push_bytes(&mut v, bytes);
                State { state: v }
            },
        }
    }

    /// Current size of the state in bytes.
    pub fn len(&self) -> (r: u32)
        requires
            self.wf(),
        ensures
            r == self@.len(),
    {
        self.state.len() as u32
    }

    /// Write `bytes` at `offset`. The offset must not lie past the current
    /// end; the write extends the state as needed but never past
    /// `MAX_CONTRACT_STATE`, and reports how many bytes it stored.
    pub fn write_state(&mut self, offset: u32, bytes: &[u8]) -> (r: Result<u32, StateError>)
        requires
            old(self).wf(),
        ensures
            final(self).wf(),
            r is Err <==> offset > old(self)@.len(),
            r is Err ==> r == Err::<u32, StateError>(StateError::OffsetPastEnd) && final(self)@
                == old(self)@,
            r is Ok ==> final(self)@ == write_state_spec(old(self)@, offset as int, bytes@)
                && r == Ok::<u32, StateError>(
                write_state_amount(old(self)@, offset as int, bytes@) as u32,
            ),
    {
        let len = self.state.len();
        if (offset as usize) > len {
            return Err(StateError::OffsetPastEnd);
        }
        let cap = (MAX_CONTRACT_STATE as usize) - (offset as usize);
        let written = if bytes.len() < cap {
            bytes.len()
        } else {
            cap
        };
        let end = (offset as usize) + written;
        if len < end {
            self.state.resize(end, 0u8);
        }
        copy_into(&mut self.state, offset as usize, bytes, 0, written);
        proof {
            assert(bytes@.subrange(0, written as int) =~= bytes@.take(written as int));
            assert(self@ =~= write_state_spec(old(self)@, offset as int, bytes@));
        }
        Ok(written as u32)
    }

    /// Copy bytes starting at `offset` into `dest[start .. start + len]`;
    /// reports how many bytes were copied, zero when `offset` lies at or past
    /// the end.
    pub fn load_state(
        &self,
        offset: u32,
        dest: &mut Vec<u8>,
        start: usize,
        len: usize,
    ) -> (r: u32)
        requires
            self.wf(),
            start + len <= old(dest)@.len(),
        ensures
            final(dest)@.len() == old(dest)@.len(),
            offset as int >= self@.len() ==> r == 0 && final(dest)@ == old(dest)@,
            (offset as int) < self@.len() ==> r == (if self@.len() - offset < len {
                self@.len() - offset
            } else {
                len as int
            }) && final(dest)@ == splice(old(dest)@, start as int, self@.subrange(
                offset as int,
                offset + r,
            )),
    {
        let slen = self.state.len();
        if (offset as usize) >= slen {
            return 0;
        }
        let avail = slen - (offset as usize);
        let amt = if avail < len {
            avail
        } else {
            len
        };
        copy_into(dest, start, self.state.as_slice(), offset as usize, amt);
        amt as u32
    }

    /// Truncate or zero-extend the state to `new_size` bytes; fails without
    /// mutating when the requested size exceeds the bound.
    pub fn resize_state(&mut self, new_size: u32) -> (r: u32)
        requires
            old(self).wf(),
        ensures
            final(self).wf(),
            r == 0 <==> new_size > MAX_CONTRACT_STATE,
            new_size > MAX_CONTRACT_STATE ==> final(self)@ == old(self)@,
            new_size <= MAX_CONTRACT_STATE ==> r == 1 && final(self)@ == (if new_size
                <= old(self)@.len() {
                old(self)@.take(new_size as int)
            } else {
                old(self)@ + Seq::new((new_size - old(self)@.len()) as nat, |i: int| 0u8)
            }),
    {
        if new_size > MAX_CONTRACT_STATE {
            0
        } else {
            self.state.resize(new_size as usize, 0u8);
            1
        }
    }
}

impl View for State {
    type V = Seq<u8>;

    open spec fn view(&self) -> Seq<u8> {
        self.state@
    }
}

} // verus!
