//! The tape: a fixed-capacity byte memory with a single cursor. The cursor
//! wraps at the pointer width; a cell wraps modulo 256. Whether the cursor
//! lies inside the buffer is the evaluator's concern, so every cell access
//! here requires it.

use vstd::prelude::*;

verus! {

/// The default tape capacity, in cells.
pub const CAPACITY: usize = 8096;

/// The value of a byte cell after adding a signed delta, modulo 256.
/// Spec `%` is Euclidean, so the result is always in `0 .. 256`.
pub open spec fn cell_add(v: u8, d: int) -> u8 {
    ((v + d) % 256) as u8
}

/// The cursor after adding a signed delta, wrapping at the pointer width.
/// Spec `%` is Euclidean, so the result is always in range.
pub open spec fn cursor_add(p: usize, d: int) -> usize {
    ((p + d) % (usize::MAX + 1)) as usize
}

/// The machine's wrapping add lands exactly on the modular cursor.
proof fn lemma_wrapping_is_cursor_add(p: usize, d: isize)
    ensures
        vstd::wrapping::usize_specs::wrapping_add_signed(p, d) == cursor_add(p, d as int),
{
    let r = usize::MAX + 1;
    if p + d > usize::MAX {
        vstd::arithmetic::div_mod::lemma_mod_multiples_vanish(1, p + d - r, r);
        vstd::arithmetic::div_mod::lemma_small_mod((p + d - r) as nat, r as nat);
    } else if p + d < 0 {
        vstd::arithmetic::div_mod::lemma_mod_multiples_vanish(1, p + d, r);
        vstd::arithmetic::div_mod::lemma_small_mod((p + d + r) as nat, r as nat);
    } else {
        vstd::arithmetic::div_mod::lemma_small_mod((p + d) as nat, r as nat);
    }
}

/// A byte memory with a single movable cursor.
#[derive(Debug)]
pub struct Tape {
    pub pointer: usize,
    pub buffer: Vec<u8>,
}

/// The trimmed view that a diagnostic dump reports: empty when every cell is
/// zero; otherwise the prefix `cells[0 .. hi)`, where `hi` is the first zero
/// cell at or after the first nonzero cell, or the capacity if none exists.
pub open spec fn dump_view(cells: Seq<u8>) -> Seq<u8> {
    if forall|i: int| 0 <= i < cells.len() ==> cells[i] == 0 {
        Seq::empty()
    } else {
        let lo = first_nonzero(cells, 0);
        cells.take(first_zero_from(cells, lo))
    }
}

/// The least index at or after `i` holding a nonzero cell, or the length if
/// none exists.
pub open spec fn first_nonzero(cells: Seq<u8>, i: int) -> int
    decreases cells.len() - i,
{
    if i < 0 || i >= cells.len() {
        cells.len() as int
    } else if cells[i] != 0 {
        i
    } else {
        first_nonzero(cells, i + 1)
    }
}

/// The least index at or after `i` holding a zero cell, or the length if none
/// exists.
pub open spec fn first_zero_from(cells: Seq<u8>, i: int) -> int
    decreases cells.len() - i,
{
    if i < 0 || i >= cells.len() {
        cells.len() as int
    } else if cells[i] == 0 {
        i
    } else {
        first_zero_from(cells, i + 1)
    }
}

/// A diagnostic picture of a tape: the cursor and the trimmed nonzero region.
#[derive(Debug, PartialEq, Eq)]
pub struct Snapshot {
    pub pointer: usize,
    pub cells: Vec<u8>,
}

impl Tape {
    /// The current cursor position.
    pub open spec fn spec_pointer(&self) -> usize {
        self.pointer
    }

    /// The cells, as a sequence of bytes.
    pub open spec fn spec_cells(&self) -> Seq<u8> {
        self.buffer@
    }

    /// The cursor lies inside the buffer, so the current cell exists.
    pub open spec fn in_bounds(&self) -> bool {
        self.pointer < self.buffer.len()
    }

    pub fn new(pointer: usize, buffer: Vec<u8>) -> (t: Tape)
        ensures
            t.pointer == pointer,
            t.buffer@ == buffer@,
    {
        Tape { pointer, buffer }
    }

    /// Move the cursor by a signed delta, wrapping at the pointer width.
    pub fn add_ptr(&mut self, n: isize)
        ensures
            final(self).pointer == cursor_add(old(self).pointer, n as int),
            final(self).buffer@ == old(self).buffer@,
    {
        proof {
            lemma_wrapping_is_cursor_add(self.pointer, n);
        }
        self.pointer = self.pointer.wrapping_add_signed(n);
    }

    /// Add a signed delta to the cell under the cursor, modulo 256.
    pub fn add_val(&mut self, n: isize)
        requires
            old(self).in_bounds(),
        ensures
            final(self).pointer == old(self).pointer,
            final(self).buffer@ == old(self).buffer@.update(
                old(self).pointer as int,
                cell_add(old(self).buffer@[old(self).pointer as int], n as int),
            ),
    {
        let b: u8 = self.buffer[self.pointer];
        // Reduce the delta modulo 256 by hand: `mag` is |n| without overflow
        // even for the smallest isize, and `up` is a nonnegative delta
        // congruent to n.
        let mag: usize = if n >= 0 {
            n as usize
        } else {
            ((-(n + 1)) as usize) + 1
        };
        let k: usize = mag % 256;
        let up: usize = if n >= 0 {
            k
        } else {
            (256 - k) % 256
        };
        let s: u16 = b as u16 + up as u16;
        let r: u8 = (s % 256) as u8;
        proof {
            let m = mag as int;
            let kk = k as int;
            let u = up as int;
            let nn = n as int;
            vstd::arithmetic::div_mod::lemma_fundamental_div_mod(m, 256);
            let q = m / 256;
            assert(m == 256 * q + kk);
            if n >= 0 {
                assert(u - nn == 256 * (-q) + 0);
                vstd::arithmetic::div_mod::lemma_mod_multiples_vanish(-q, 0, 256);
            } else {
                assert(nn == -m);
                if kk != 0 {
                    vstd::arithmetic::div_mod::lemma_small_mod((256 - kk) as nat, 256);
                    assert(u == 256 - kk);
                }
                assert(u - nn == 256 * (if kk == 0 { q } else { q + 1 }) + 0);
                vstd::arithmetic::div_mod::lemma_mod_multiples_vanish(
                    if kk == 0 { q } else { q + 1 },
                    0,
                    256,
                );
            }
            lemma_cell_add_reduced(b, n as int, up as int);
        }
        self.buffer[self.pointer] = r;
    }

    /// The byte under the cursor.
    pub fn get_char(&self) -> (c: u8)
        requires
            self.in_bounds(),
        ensures
            c == self.buffer@[self.pointer as int],
    {
        self.buffer[self.pointer]
    }

    /// Overwrite the byte under the cursor.
    pub fn put_char(&mut self, c: u8)
        requires
            old(self).in_bounds(),
        ensures
            final(self).pointer == old(self).pointer,
            final(self).buffer@ == old(self).buffer@.update(old(self).pointer as int, c),
    {
        self.buffer[self.pointer] = c;
    }

    /// The diagnostic picture of this tape: the cursor position and the
    /// trimmed view of the nonzero region, leaving the tape untouched.
    pub fn snapshot(&self) -> (s: Snapshot)
        ensures
            s.pointer == self.pointer,
            s.cells@ == dump_view(self.buffer@),
    {
        let n = self.buffer.len();
        let mut lo: usize = 0;
        while lo < n && self.buffer[lo] == 0
            invariant
                lo <= n,
                n == self.buffer.len(),
                forall|i: int| 0 <= i < lo ==> self.buffer@[i] == 0,
                first_nonzero(self.buffer@, 0) == first_nonzero(self.buffer@, lo as int),
            decreases n - lo,
        {
            lo = lo + 1;
        }
        let mut cells: Vec<u8> = Vec::new();
        if lo == n {
            proof {
                assert(forall|i: int| 0 <= i < self.buffer@.len() ==> self.buffer@[i] == 0);
            }
            return Snapshot { pointer: self.pointer, cells };
        }
        let mut hi: usize = lo;
        while hi < n && self.buffer[hi] != 0
            invariant
                lo <= hi <= n,
                n == self.buffer.len(),
                forall|i: int| lo <= i < hi ==> self.buffer@[i] != 0,
                first_zero_from(self.buffer@, lo as int) == first_zero_from(
                    self.buffer@,
                    hi as int,
                ),
            decreases n - hi,
        {
            hi = hi + 1;
        }
        let mut j: usize = 0;
        while j < hi
            invariant
                j <= hi <= n,
                n == self.buffer.len(),
                cells@ == self.buffer@.take(j as int),
            decreases hi - j,
        {
            cells.push(self.buffer[j]);
            proof {
                assert(cells@ =~= self.buffer@.take(j + 1));
            }
            j = j + 1;
        }
        proof {
            assert(self.buffer@[lo as int] != 0);
            assert(!(forall|i: int|
                0 <= i < self.buffer@.len() ==> self.buffer@[i] == 0));
            assert(first_nonzero(self.buffer@, 0) == lo as int);
            assert(first_zero_from(self.buffer@, lo as int) == hi as int);
        }
        Snapshot { pointer: self.pointer, cells }
    }
}

impl Default for Tape {
    /// A fresh tape: the cursor at zero over a zero-filled buffer of the
    /// default capacity.
    fn default() -> (t: Tape)
        ensures
            t.pointer == 0,
            t.buffer@ == Seq::new(CAPACITY as nat, |i: int| 0u8),
    {
        let buffer: Vec<u8> = vec![0u8; CAPACITY];
        proof {
            assert(buffer@ =~= Seq::new(CAPACITY as nat, |i: int| 0u8));
        }
        Tape { pointer: 0, buffer }
    }
}

/// Adding any delta congruent to `d` modulo 256 lands on the same cell value.
proof fn lemma_cell_add_reduced(v: u8, d: int, up: int)
    requires
        0 <= up < 256,
        (up - d) % 256 == 0,
    ensures
        cell_add(v, up) == cell_add(v, d),
        (v + up) % 256 == cell_add(v, d),
{
    let k = (up - d) / 256;
    vstd::arithmetic::div_mod::lemma_fundamental_div_mod(up - d, 256);
    assert(up == d + 256 * k);
    vstd::arithmetic::div_mod::lemma_mod_multiples_vanish(k, v + d, 256);
    assert((v + up) % 256 == (v + d) % 256);
}

} // verus!
