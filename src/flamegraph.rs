//! The folded-stack lines a flame graph is drawn from: one line per stack,
//! `thread;outermost;...;innermost count`.
use vstd::prelude::*;

use crate::encode::{symbol_name, thread_label};
use crate::frames::{decimal_chars, decimal_string, Frames, Symbol};
use crate::report::Report;

verus! {

/// `n` in decimal, with a leading `-` when negative.
pub open spec fn signed_decimal(n: isize) -> Seq<char> {
    if n >= 0 {
        decimal_chars(n as u64)
    } else {
        seq!['-'] + crate::profiler::decimal((-(n as int)) as nat).map_values(|b: u8| b as char)
    }
}

/// `n` in decimal, with a leading `-` when negative, without padding.
pub fn signed_decimal_string(n: isize) -> (r: String)
    ensures
        r@ == signed_decimal(n),
{
    if n >= 0 {
        decimal_string(n as u64)
    } else {
        let magnitude: u64 = (-(n as i128)) as u64;
        let mut r = String::from_str("-");
        proof {
            reveal_strlit("-");
        }
        let digits = decimal_string(magnitude);
        r.append(digits.as_str());
        assert(r@ =~= signed_decimal(n));
        r
    }
}

/// `;name` for each symbol of a frame, innermost symbol last, read from the
/// last symbol to the first.
pub open spec fn frame_names_reversed(frame: Seq<Symbol>) -> Seq<char>
    decreases frame.len(),
{
    if frame.len() == 0 {
        Seq::empty()
    } else {
        seq![';'] + symbol_name(frame.last()) + frame_names_reversed(frame.drop_last())
    }
}

/// The names of all frames, from the last frame (the outermost call) to the
/// first, each preceded by `;`.
pub open spec fn stack_names_reversed(frames: Seq<Vec<Symbol>>) -> Seq<char>
    decreases frames.len(),
{
    if frames.len() == 0 {
        Seq::empty()
    } else {
        frame_names_reversed(frames.last()@) + stack_names_reversed(frames.drop_last())
    }
}

/// The folded line of one stack: the thread label, the symbol names from the
/// outermost call in, separated by `;`, a space and the count.
pub open spec fn folded_line(f: Frames, count: isize) -> Seq<char> {
    thread_label(f) + stack_names_reversed(f.frames@) + seq![' '] + signed_decimal(count)
}

fn append_frame(line: &mut String, frame: &Vec<Symbol>)
    ensures
        final(line)@ == old(line)@ + frame_names_reversed(frame@),
{
    let semicolon = ";";
    proof {
        reveal_strlit(";");
    }
    let mut k: usize = frame.len();
    let ghost start = line@;
    assert(frame@.take(k as int) =~= frame@);
    while k > 0
        invariant
            semicolon@ == seq![';'],
            0 <= k <= frame@.len(),
            start + frame_names_reversed(frame@) == line@ + frame_names_reversed(frame@.take(k as int)),
        decreases k,
    {
        let ghost pre = frame@.take(k as int);
        assert(pre.drop_last() =~= frame@.take(k as int - 1));
        assert(pre.last() == frame@[k as int - 1]);
        let ghost before = line@;
        line.append(semicolon);
        let name = frame[k - 1].name();
        line.append(name.as_str());
        assert(frame_names_reversed(pre) == seq![';'] + name@ + frame_names_reversed(frame@.take(k as int - 1)));
        assert(line@ + frame_names_reversed(frame@.take(k as int - 1)) =~= before + frame_names_reversed(pre));
        k = k - 1;
    }
    assert(frame@.take(0) =~= Seq::<Symbol>::empty());
    assert(line@ =~= start + frame_names_reversed(frame@));
}

impl Report {
    /// One folded line per stack, in the report's order.
    pub fn flamegraph_lines(&self) -> (r: Vec<String>)
        ensures
            r@.len() == self.data@.len(),
            forall|i: int| 0 <= i < r@.len() ==> (#[trigger] r@[i])@ == folded_line(self.data@[i].0, self.data@[i].1),
    {
        let mut lines: Vec<String> = Vec::new();
        let mut i: usize = 0;
        while i < self.data.len()
            invariant
                0 <= i <= self.data@.len(),
                lines@.len() == i,
                forall|j: int| 0 <= j < i ==> (#[trigger] lines@[j])@ == folded_line(self.data@[j].0, self.data@[j].1),
            decreases self.data@.len() - i,
        {
            let (frames, count) = &self.data[i];
            let mut line = frames.thread_name_or_id();
            let ghost head = line@;
            let mut j: usize = frames.frames.len();
            assert(frames.frames@.take(j as int) =~= frames.frames@);
            while j > 0
                invariant
                    0 <= j <= frames.frames@.len(),
                    head + stack_names_reversed(frames.frames@) == line@ + stack_names_reversed(
                        frames.frames@.take(j as int),
                    ),
                decreases j,
            {
                let ghost pre = frames.frames@.take(j as int);
                assert(pre.drop_last() =~= frames.frames@.take(j as int - 1));
                assert(pre.last() == frames.frames@[j as int - 1]);
                let ghost before = line@;
                append_frame(&mut line, &frames.frames[j - 1]);
                assert(line@ + stack_names_reversed(frames.frames@.take(j as int - 1)) =~= before
                    + stack_names_reversed(pre));
                j = j - 1;
            }
            assert(frames.frames@.take(0) =~= Seq::<Vec<Symbol>>::empty());
            let space = " ";
            proof {
                reveal_strlit(" ");
            }
            line.append(space);
            let value = signed_decimal_string(*count);
            line.append(value.as_str());
            assert(line@ =~= folded_line(*frames, *count));
            lines.push(line);
            i = i + 1;
        }
        lines
    }
}

} // verus!
