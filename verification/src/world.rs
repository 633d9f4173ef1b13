//! The program's input and output streams.
use vstd::prelude::*;
use crate::value::{Value, Obj, display, m_vals, lemma_m_vals};
use crate::text::{join, push_all};

verus! {

/// What the program has written to its output.
pub struct WriteStream {
    pub written: Vec<char>,
}

/// The program's input, and how much of it has been read.
pub struct ReadStream {
    pub data: Vec<u8>,
    pub pos: usize,
}

/// Both streams.
pub struct World {
    pub stdout: WriteStream,
    pub stdin: ReadStream,
}

pub struct SWorld {
    pub out: Seq<char>,
    pub input: Seq<u8>,
    pub pos: int,
}

impl View for World {
    type V = SWorld;

    open spec fn view(&self) -> SWorld {
        SWorld {
            out: self.stdout.written@,
            input: self.stdin.data@,
            pos: self.stdin.pos as int,
        }
    }
}

impl WriteStream {
    /// An output stream with nothing written yet.
    pub fn new() -> (r: WriteStream)
        ensures
            r.written@ == Seq::<char>::empty(),
    {
        WriteStream { written: Vec::new() }
    }
}

impl ReadStream {
    /// An input stream over `data`, at its start.
    pub fn new(data: Vec<u8>) -> (r: ReadStream)
        ensures
            r.data@ == data@,
            r.pos == 0,
    {
        ReadStream { data, pos: 0 }
    }
}

/// The texts of the objects.
pub open spec fn texts_of(args: Seq<Obj>) -> Seq<Seq<char>> {
    args.map(|i: int, o: Obj| display(o))
}

/// Writing the objects: their texts, separated by single spaces.
pub open spec fn write_out(w: SWorld, args: Seq<Obj>) -> SWorld {
    SWorld { out: w.out + join(texts_of(args), seq![' ']), ..w }
}

/// Reading one byte: its value, or -1 at the end of the input.
pub open spec fn read_in(w: SWorld) -> (i64, SWorld) {
    if 0 <= w.pos < w.input.len() {
        (w.input[w.pos] as i64, SWorld { pos: w.pos + 1, ..w })
    } else {
        (-1i64, w)
    }
}

pub proof fn lemma_join_push(items: Seq<Seq<char>>, x: Seq<char>, sep: Seq<char>)
    ensures
        join(items.push(x), sep) == (if items.len() == 0 {
            x
        } else {
            join(items, sep) + sep + x
        }),
{
    assert(items.push(x).drop_last() =~= items);
    if items.len() == 0 {
        assert(items.push(x)[0] == x);
    }
}

impl World {
    /// Writes the texts of `args`, separated by spaces.
    pub fn write(&mut self, args: &Vec<Value>)
        ensures
            final(self)@ == write_out(old(self)@, m_vals(args@)),
    {
        let ghost ms = m_vals(args@);
        let ghost ts = texts_of(ms);
        proof {
            lemma_m_vals(args@);
        }
        let mut k: usize = 0;
        while k < args.len()
            invariant
                ms == m_vals(args@),
                ts == texts_of(ms),
                ms.len() == args@.len(),
                forall|i: int| 0 <= i < args@.len() ==> #[trigger] ms[i] == args@[i]@,
                k <= args@.len(),
                self.stdin == old(self).stdin,
                self.stdout.written@ == old(self).stdout.written@ + join(
                    ts.subrange(0, k as int),
                    seq![' '],
                ),
            decreases args@.len() - k,
        {
            let t = args[k].text();
            proof {
                lemma_join_push(ts.subrange(0, k as int), ts[k as int], seq![' ']);
                assert(ts.subrange(0, k as int).push(ts[k as int]) =~= ts.subrange(0, k + 1));
            }
            if k > 0 {
                self.stdout.written.push(' ');
            }
            push_all(&mut self.stdout.written, &t);
            k += 1;
            assert(self.stdout.written@ =~= old(self).stdout.written@ + join(
                ts.subrange(0, k as int),
                seq![' '],
            ));
        }
        assert(ts.subrange(0, ts.len() as int) =~= ts);
    }

    /// Reads one byte: its value, or -1 at the end of the input.
    pub fn read(&mut self) -> (r: i64)
        ensures
            (r, final(self)@) == read_in(old(self)@),
    {
        if self.stdin.pos < self.stdin.data.len() {
            let b = self.stdin.data[self.stdin.pos];
            self.stdin.pos = self.stdin.pos + 1;
            b as i64
        } else {
            -1
        }
    }
}

} // verus!
