//! Line framing over the byte stream: messages are newline-terminated, and
//! a read may end in the middle of a line, so bytes are buffered until a
//! whole line is there.

use vstd::prelude::*;

verus! {

/// The newline byte that ends each protocol message.
pub open spec fn nl() -> u8 {
    10
}

pub open spec fn has_nl(s: Seq<u8>) -> bool {
    exists|i: int| 0 <= i < s.len() && s[i] == nl()
}

/// Bytes read from the connection but not yet handed out as lines.
pub struct LineBuffer {
    buf: Vec<u8>,
}

impl View for LineBuffer {
    type V = Seq<u8>;

    closed spec fn view(&self) -> Seq<u8> {
        self.buf@
    }
}

impl LineBuffer {
    pub fn new() -> (r: LineBuffer)
        ensures
            r@ == Seq::<u8>::empty(),
    {
        LineBuffer { buf: Vec::new() }
    }

    /// Appends one chunk as it came off the connection, whatever message
    /// boundaries it cuts across.
    pub fn feed(&mut self, chunk: &[u8])
        ensures
            final(self)@ == old(self)@ + chunk@,
    {
        self.buf.extend_from_slice(chunk);
        proof {
            assert(self.buf@ =~= old(self)@ + chunk@);
        }
    }

    /// Takes the first complete line out of the buffer: the bytes before
    /// the first newline, which the buffer then no longer holds. `None`
    /// exactly when no whole line has arrived yet.
    pub fn next_line(&mut self) -> (r: Option<Vec<u8>>)
        ensures
            match r {
                Some(line) => {
                    &&& old(self)@ == line@ + seq![nl()] + final(self)@
                    &&& forall|i: int| 0 <= i < line@.len() ==> line@[i] != nl()
                },
                None => {
                    &&& final(self)@ == old(self)@
                    &&& !has_nl(old(self)@)
                },
            },
    {
        let n = self.buf.len();
        let mut k: usize = 0;
        while k < n
            invariant
                k <= n,
                n == self.buf@.len(),
                self.buf@ == old(self)@,
                forall|i: int| 0 <= i < k ==> self.buf@[i] != nl(),
            decreases n - k,
        {
            if self.buf[k] == 10u8 {
                let mut line: Vec<u8> = Vec::new();
                let mut i: usize = 0;
                while i < k
                    invariant
                        i <= k < n,
                        n == self.buf@.len(),
                        self.buf@ == old(self)@,
                        line@ == self.buf@.subrange(0, i as int),
                    decreases k - i,
                {
                    line.push(self.buf[i]);
                    proof {
                        assert(line@ =~= self.buf@.subrange(0, i + 1));
                    }
                    i = i + 1;
                }
                let mut rest: Vec<u8> = Vec::new();
                let mut j: usize = k + 1;
                while j < n
                    invariant
                        k + 1 <= j <= n,
                        n == self.buf@.len(),
                        self.buf@ == old(self)@,
                        rest@ == self.buf@.subrange(k + 1, j as int),
                    decreases n - j,
                {
                    rest.push(self.buf[j]);
                    proof {
                        assert(rest@ =~= self.buf@.subrange(k + 1, j + 1));
                    }
                    j = j + 1;
                }
                self.buf = rest;
                proof {
                    assert(old(self)@ =~= line@ + seq![nl()] + self.buf@);
                    assert(forall|i2: int| 0 <= i2 < line@.len() ==> line@[i2] != nl());
                }
                return Some(line);
            }
            k = k + 1;
        }
        None
    }

    /// How many bytes wait in the buffer.
    pub fn pending(&self) -> (r: usize)
        ensures
            r == self@.len(),
    {
        self.buf.len()
    }
}

} // verus!
