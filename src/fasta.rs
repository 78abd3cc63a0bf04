//! FASTA records: a line that starts with `>` opens a record and holds its
//! header; the lines up to the next header hold its sequence. Line breaks,
//! carriage returns, spaces and tabs inside sequence lines are dropped; a
//! carriage return at the end of a header line is dropped too.

use vstd::prelude::*;

verus! {

/// Where a reader of FASTA text stands after some prefix of it.
pub struct ReadState {
    pub done: Seq<(Seq<u8>, Seq<u8>)>,
    pub current: Option<(Seq<u8>, Seq<u8>)>,
    pub in_header: bool,
    pub line_start: bool,
    pub failed: bool,
}

/// Whether `b` is dropped from sequence lines.
pub open spec fn is_blank(b: u8) -> bool {
    b == 10 || b == 13 || b == 32 || b == 9
}

/// The records closed so far, and the open one.
pub open spec fn all_records(s: ReadState) -> Seq<(Seq<u8>, Seq<u8>)> {
    match s.current {
        Some(r) => s.done.push(r),
        None => s.done,
    }
}

/// The state after reading byte `b` in state `s`.
pub open spec fn read_byte(s: ReadState, b: u8) -> ReadState {
    if s.failed {
        s
    } else if b == 62 && s.line_start {
        ReadState {
            done: all_records(s),
            current: Some((Seq::empty(), Seq::empty())),
            in_header: true,
            line_start: false,
            failed: false,
        }
    } else if b == 10 {
        ReadState { in_header: false, line_start: true, ..s }
    } else if s.in_header {
        if b == 13 {
            ReadState { line_start: false, ..s }
        } else {
            let (h, q) = s.current->Some_0;
            ReadState { current: Some((h.push(b), q)), line_start: false, ..s }
        }
    } else if is_blank(b) {
        ReadState { line_start: false, ..s }
    } else {
        match s.current {
            Some((h, q)) => ReadState { current: Some((h, q.push(b))), line_start: false, ..s },
            None => ReadState { failed: true, ..s },
        }
    }
}

/// The state after reading `text` from the start.
pub open spec fn read_state(text: Seq<u8>) -> ReadState
    decreases text.len(),
{
    if text.len() == 0 {
        ReadState {
            done: Seq::empty(),
            current: None,
            in_header: false,
            line_start: true,
            failed: false,
        }
    } else {
        read_byte(read_state(text.drop_last()), text.last())
    }
}

/// The records of `text` as (header, sequence) pairs, or `None` when a
/// sequence byte comes before the first header.
pub open spec fn fasta_records(text: Seq<u8>) -> Option<Seq<(Seq<u8>, Seq<u8>)>> {
    let s = read_state(text);
    if s.failed {
        None
    } else {
        Some(all_records(s))
    }
}

/// The contents of a list of records.
pub open spec fn records_view(v: Seq<(Vec<u8>, Vec<u8>)>) -> Seq<(Seq<u8>, Seq<u8>)> {
    Seq::new(v.len(), |i: int| (v[i].0@, v[i].1@))
}

proof fn lemma_failure_persists(text: Seq<u8>, i: int)
    requires
        0 <= i <= text.len(),
        read_state(text.take(i)).failed,
    ensures
        read_state(text).failed,
    decreases text.len() - i,
{
    if i == text.len() {
        assert(text.take(i) =~= text);
    } else {
        assert(text.take(i + 1).drop_last() =~= text.take(i));
        lemma_failure_persists(text, i + 1);
    }
}

/// Why FASTA text could not be read.
#[derive(Debug, Clone, Copy, PartialEq, Eq, Structural)]
pub enum FastaError {
    /// Sequence data comes before the first header.
    SequenceBeforeHeader,
}

/// Splits FASTA text into (header, sequence) records.
pub fn parse_fasta(text: &Vec<u8>) -> (r: Result<Vec<(Vec<u8>, Vec<u8>)>, FastaError>)
    ensures
        r is Err <==> fasta_records(text@) is None,
        r matches Ok(v) ==> fasta_records(text@) == Some(records_view(v@)),
{
    let mut done: Vec<(Vec<u8>, Vec<u8>)> = Vec::new();
    let mut open = false;
    let mut header: Vec<u8> = Vec::new();
    let mut seq: Vec<u8> = Vec::new();
    let mut in_header = false;
    let mut line_start = true;
    let mut i: usize = 0;
    while i < text.len()
        invariant
            i <= text@.len(),
            ({
                let s = read_state(text@.take(i as int));
                &&& !s.failed
                &&& s.done == records_view(done@)
                &&& s.current == (if open {
                    Some((header@, seq@))
                } else {
                    None::<(Seq<u8>, Seq<u8>)>
                })
                &&& s.in_header == in_header
                &&& s.line_start == line_start
                &&& in_header ==> open
            }),
        decreases text.len() - i,
    {
        let b = text[i];
        proof {
            assert(text@.take(i + 1).drop_last() =~= text@.take(i as int));
        }
        if b == 62 && line_start {
            if open {
                let ghost before = done@;
                done.push((header, seq));
                assert(records_view(done@) =~= records_view(before).push(
                    (done@[before.len() as int].0@, done@[before.len() as int].1@),
                ));
            }
            header = Vec::new();
            seq = Vec::new();
            open = true;
            in_header = true;
            line_start = false;
        } else if b == 10 {
            in_header = false;
            line_start = true;
        } else if in_header {
            if b != 13 {
                header.push(b);
            }
            line_start = false;
        } else if b == 10 || b == 13 || b == 32 || b == 9 {
            line_start = false;
        } else if open {
            seq.push(b);
            line_start = false;
        } else {
            proof {
                lemma_failure_persists(text@, i + 1);
            }
            return Err(FastaError::SequenceBeforeHeader);
        }
        i = i + 1;
    }
    proof {
        assert(text@.take(text@.len() as int) =~= text@);
    }
    if open {
        let ghost before = done@;
        done.push((header, seq));
        assert(records_view(done@) =~= records_view(before).push(
            (done@[before.len() as int].0@, done@[before.len() as int].1@),
        ));
    }
    assert(fasta_records(text@) == Some(records_view(done@)));
    Ok(done)
}

} // verus!
