use vstd::prelude::*;

verus! {

/// The byte value of `'\n'`.
pub const NEWLINE: u8 = 10;

/// A 0-based line/character position.
#[derive(Debug, Clone, Copy, PartialEq, Eq)]
pub struct Position {
    pub line: u32,
    pub character: u32,
}

/// A half-open source range.
#[derive(Debug, Clone, Copy, PartialEq, Eq)]
pub struct Range {
    pub start: Position,
    pub end: Position,
}

/// The offsets at which the lines of `b` start: 0, then one past each newline.
pub open spec fn line_starts(b: Seq<u8>) -> Seq<int>
    decreases b.len(),
{
    if b.len() == 0 {
        seq![0int]
    } else {
        let p = line_starts(b.drop_last());
        if b.last() == NEWLINE {
            p.push(b.len() as int)
        } else {
            p
        }
    }
}

/// `starts` is strictly increasing, begins at 0 and stays within `0..=len`.
pub open spec fn starts_well_formed(starts: Seq<int>, len: int) -> bool {
    &&& starts.len() >= 1
    &&& starts[0] == 0
    &&& forall|i: int, j: int| 0 <= i < j < starts.len() ==> #[trigger] starts[i] < #[trigger] starts[j]
    &&& forall|i: int| 0 <= i < starts.len() ==> 0 <= #[trigger] starts[i] <= len
}

/// The index of the line holding offset `o`: the greatest `i` with `starts[i] <= o`.
pub open spec fn line_of(starts: Seq<int>, o: int) -> int {
    choose|i: int|
        0 <= i < starts.len() && #[trigger] starts[i] <= o && (i + 1 == starts.len() || o < starts[i + 1])
}

pub proof fn lemma_line_starts_well_formed(b: Seq<u8>)
    ensures
        starts_well_formed(line_starts(b), b.len() as int),
        line_starts(b).last() <= b.len(),
    decreases b.len(),
{
    if b.len() > 0 {
        lemma_line_starts_well_formed(b.drop_last());
    }
}

/// In a well-formed table every offset up to the end lies on exactly one line.
pub proof fn lemma_line_of(starts: Seq<int>, len: int, o: int, i: int)
    requires
        starts_well_formed(starts, len),
        0 <= o,
        0 <= i < starts.len(),
        starts[i] <= o,
        i + 1 == starts.len() || o < starts[i + 1],
    ensures
        line_of(starts, o) == i,
{
    let k = line_of(starts, o);
    assert(0 <= k < starts.len() && starts[k] <= o && (k + 1 == starts.len() || o < starts[k + 1]));
    if k < i {
        assert(starts[k + 1] <= starts[i]);
    } else if i < k {
        assert(starts[i + 1] <= starts[k]);
    }
}

proof fn lemma_starts_at_least_index(starts: Seq<int>, len: int, i: int)
    requires
        starts_well_formed(starts, len),
        0 <= i < starts.len(),
    ensures
        i <= starts[i],
    decreases i,
{
    if i > 0 {
        lemma_starts_at_least_index(starts, len, i - 1);
        assert(starts[i - 1] < starts[i]);
    }
}

/// The number of newlines among the first `n` bytes of `b`.
pub open spec fn newlines_before(b: Seq<u8>, n: int) -> int
    decreases n,
{
    if n <= 0 {
        0
    } else {
        newlines_before(b, n - 1) + if b[n - 1] == NEWLINE {
            1int
        } else {
            0int
        }
    }
}

proof fn lemma_starts_len(b: Seq<u8>, n: int)
    requires
        0 <= n <= b.len(),
    ensures
        line_starts(b.take(n)).len() == newlines_before(b, n) + 1,
    decreases n,
{
    if n > 0 {
        lemma_starts_len(b, n - 1);
        assert(b.take(n).drop_last() =~= b.take(n - 1));
    } else {
        assert(b.take(0) =~= Seq::<u8>::empty());
    }
}

proof fn lemma_starts_prefix(b: Seq<u8>, n: int, m: int)
    requires
        0 <= n <= m <= b.len(),
    ensures
        line_starts(b.take(n)).len() <= line_starts(b.take(m)).len(),
        forall|j: int|
            0 <= j < line_starts(b.take(n)).len() ==> line_starts(b.take(m))[j] == #[trigger] line_starts(
                b.take(n),
            )[j],
        forall|j: int|
            line_starts(b.take(n)).len() <= j < line_starts(b.take(m)).len() ==> #[trigger] line_starts(
                b.take(m),
            )[j] > n,
    decreases m - n,
{
    if n < m {
        lemma_starts_prefix(b, n, m - 1);
        assert(b.take(m).drop_last() =~= b.take(m - 1));
    }
}

/// Maps byte offsets of a text to line/character positions.
pub struct LineIndex {
    text: String,
    starts: Vec<usize>,
}

impl LineIndex {
    /// The bytes of the indexed text.
    pub closed spec fn bytes(&self) -> Seq<u8> {
        vstd::utf8::encode_utf8(self.text@)
    }

    /// The position `to_pos` gives for offset `off`.
    pub open spec fn spec_to_pos(&self, off: int) -> Position {
        let o = if off <= self.bytes().len() { off } else { self.bytes().len() as int };
        let l = line_of(self.starts(), o);
        Position { line: l as u32, character: (o - self.starts()[l]) as u32 }
    }

    /// The line start offsets, as integers.
    pub closed spec fn starts(&self) -> Seq<int> {
        self.starts@.map_values(|x: usize| x as int)
    }

    pub open spec fn wf(&self) -> bool {
        &&& self.starts() == line_starts(self.bytes())
        &&& self.bytes().len() <= usize::MAX
    }

    /// Builds the index: line 0 starts at offset 0, and every newline at byte `i`
    /// starts a line at `i + 1`.
    pub fn new(text: &str) -> (r: Self)
        ensures
            r.wf(),
            r.bytes() == vstd::utf8::encode_utf8(text@),
    {
        let b = text.as_bytes();
        let mut s: Vec<usize> = vec![0];
        let mut i: usize = 0;
        assert(b@.take(0) =~= Seq::<u8>::empty());
        assert(s@.map_values(|x: usize| x as int) =~= line_starts(b@.take(0)));
        while i < b.len()
            invariant
                0 <= i <= b@.len(),
                s@.map_values(|x: usize| x as int) == line_starts(b@.take(i as int)),
            decreases b@.len() - i,
        {
            let ghost before = s@;
            assert(b@.take(i + 1).drop_last() =~= b@.take(i as int));
            if b[i] == NEWLINE {
                s.push(i + 1);
                assert(s@.map_values(|x: usize| x as int) =~= before.map_values(
                    |x: usize| x as int,
                ).push(i + 1));
            }
            i += 1;
        }
        assert(b@.take(b@.len() as int) =~= b@);
        let owned = text.to_owned();
        LineIndex { text: owned, starts: s }
    }

    /// The byte length of the indexed text.
    pub fn text_len(&self) -> (n: usize)
        ensures
            n == self.bytes().len(),
    {
        let t = self.text.as_str();
        t.as_bytes().len()
    }

    /// Maps a byte offset to its line and character. Offsets past the end are
    /// clamped to the end.
    pub fn to_pos(&self, off: usize) -> (r: Position)
        requires
            self.wf(),
        ensures
            ({
                let o = if off <= self.bytes().len() { off as int } else { self.bytes().len() as int };
                let l = line_of(self.starts(), o);
                &&& r.line == l as u32
                &&& r.character == (o - self.starts()[l]) as u32
            }),
    {
        proof {
            lemma_line_starts_well_formed(self.bytes());
        }
        let len = self.text_len();
        let o = if off > len { len } else { off };
        let ghost st = self.starts();
        let mut lo: usize = 0;
        let mut hi: usize = self.starts.len();
        while hi - lo > 1
            invariant
                st == self.starts(),
                starts_well_formed(st, len as int),
                st.len() == self.starts@.len(),
                0 <= lo < hi <= st.len(),
                st[lo as int] <= o,
                hi == st.len() || o < st[hi as int],
            decreases hi - lo,
        {
            let mid = lo + (hi - lo) / 2;
            if self.starts[mid] <= o {
                lo = mid;
            } else {
                hi = mid;
            }
        }
        proof {
            lemma_line_of(st, len as int, o as int, lo as int);
        }
        Position { line: lo as u32, character: (o - self.starts[lo]) as u32 }
    }

    /// An offset inside line `l` (from that line's start up to the next one)
    /// maps to line `l`, and its character counted from the start of line `l`
    /// names the same byte.
    pub proof fn lemma_to_pos_correct(&self, o: int, l: int)
        requires
            self.wf(),
            0 <= o <= self.bytes().len(),
            self.bytes().len() <= u32::MAX,
            0 <= l < self.starts().len(),
            self.starts()[l] <= o,
            l + 1 == self.starts().len() || o < self.starts()[l + 1],
        ensures
            self.spec_to_pos(o).line == l,
            self.spec_to_pos(o).character == o - self.starts()[l],
            o < self.bytes().len() ==> self.bytes()[self.starts()[l]
                + self.spec_to_pos(o).character] == self.bytes()[o],
    {
        lemma_line_starts_well_formed(self.bytes());
        lemma_line_of(self.starts(), self.bytes().len() as int, o, l);
        lemma_starts_at_least_index(self.starts(), self.bytes().len() as int, l);
    }

    /// The line `to_pos` gives for an offset is the number of newlines before
    /// it: the line that contains it.
    pub proof fn lemma_line_is_newline_count(&self, o: int)
        requires
            self.wf(),
            0 <= o <= self.bytes().len(),
        ensures
            line_of(self.starts(), o) == newlines_before(self.bytes(), o),
            self.starts()[newlines_before(self.bytes(), o)] <= o,
    {
        let b = self.bytes();
        let st = self.starts();
        lemma_line_starts_well_formed(b);
        lemma_starts_len(b, o);
        lemma_starts_len(b, b.len() as int);
        assert(b.take(b.len() as int) =~= b);
        lemma_starts_prefix(b, o, b.len() as int);
        lemma_line_starts_well_formed(b.take(o));
        let k = newlines_before(b, o);
        let so = line_starts(b.take(o));
        assert(st[k] == so[k]);
        assert(so.last() <= o);
        if k + 1 < st.len() {
            assert(st[k + 1] > o);
        }
        lemma_line_of(st, b.len() as int, o, k);
    }

    /// Maps a pair of byte offsets to a range.
    pub fn to_range(&self, s: usize, e: usize) -> (r: Range)
        requires
            self.wf(),
        ensures
            r.start == self.spec_to_pos(s as int),
            r.end == self.spec_to_pos(e as int),
    {
        Range { start: self.to_pos(s), end: self.to_pos(e) }
    }
}

} // verus!
