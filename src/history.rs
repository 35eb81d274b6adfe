//! The history log: every accepted line, in the order it was entered,
//! listed with 1-based numbers.
use vstd::prelude::*;
use crate::text::{decimal, decimal_text, pad_left, pad_text, split_on, split_text, texts};

verus! {

/// A line read from the history file loses one trailing carriage return,
/// as a `\r\n` ending is one line terminator.
pub open spec fn strip_cr(l: Seq<char>) -> Seq<char> {
    if l.len() > 0 && l.last() == '\r' {
        l.drop_last()
    } else {
        l
    }
}

/// The lines of a history file: split at `\n`, each terminated line without
/// a trailing `\r`, and the part after the last `\n` kept only when it is
/// not empty.
pub open spec fn text_lines(t: Seq<char>) -> Seq<Seq<char>> {
    let pieces = split_on(t, '\n');
    let terminated = pieces.drop_last().map_values(|l: Seq<char>| strip_cr(l));
    if pieces.last().len() == 0 {
        terminated
    } else {
        terminated.push(pieces.last())
    }
}

/// Width of the number column in a listing.
pub const NUMBER_WIDTH: usize = 5;

/// One line of the listing: the 1-based number right-aligned in its column,
/// two spaces, the entry.
pub open spec fn history_line(number: nat, entry: Seq<char>) -> Seq<char> {
    pad_left(decimal(number), NUMBER_WIDTH as nat) + seq![' ', ' '] + entry
}

/// The listing of a whole log, one line per entry, in order.
pub open spec fn history_listing(entries: Seq<Seq<char>>) -> Seq<Seq<char>> {
    Seq::new(entries.len(), |i: int| history_line((i + 1) as nat, entries[i]))
}

/// The log after recording each of `lines` in turn.
pub open spec fn record_all(log: Seq<Seq<char>>, lines: Seq<Seq<char>>) -> Seq<Seq<char>>
    decreases lines.len(),
{
    if lines.len() == 0 {
        log
    } else {
        record_all(log, lines.drop_last()).push(lines.last())
    }
}

/// The ordered log of accepted lines.
pub struct HistoryLog {
    entries: Vec<String>,
}

impl View for HistoryLog {
    type V = Seq<Seq<char>>;

    closed spec fn view(&self) -> Seq<Seq<char>> {
        texts(self.entries@)
    }
}

/// Removes one trailing carriage return.
fn strip_cr_text(l: &String) -> (r: String)
    ensures
        r@ == strip_cr(l@),
{
    let mut r = l.clone();
    let n = r.as_str().unicode_len();
    if n > 0 && r.as_str().get_char(n - 1) == '\r' {
        r.pop();
    }
    r
}

impl HistoryLog {
    /// An empty log.
    pub fn new() -> (r: HistoryLog)
        ensures
            r@ == Seq::<Seq<char>>::empty(),
    {
        let r = HistoryLog { entries: Vec::new() };
        assert(r@ =~= Seq::<Seq<char>>::empty());
        r
    }

    /// The log held by the text of a history file; an empty text (also a
    /// missing file) gives an empty log.
    pub fn from_text(text: &str) -> (r: HistoryLog)
        ensures
            r@ == text_lines(text@),
    {
        let pieces = split_text(text, '\n');
        proof {
            crate::text::lemma_split_on_len(text@, '\n');
        }
        let last = pieces.len() - 1;
        let mut entries: Vec<String> = Vec::new();
        let mut i: usize = 0;
        while i < last
            invariant
                last == pieces@.len() - 1,
                i <= last,
                texts(pieces@) == split_on(text@, '\n'),
                entries@.len() == i,
                forall|j: int| 0 <= j < i ==> #[trigger] entries@[j]@ == strip_cr(pieces@[j]@),
            decreases last - i,
        {
            let l = strip_cr_text(&pieces[i]);
            entries.push(l);
            i = i + 1;
        }
        assert(texts(entries@) =~= texts(pieces@).drop_last().map_values(|l: Seq<char>| strip_cr(l)));
        if pieces[last].as_str().unicode_len() > 0 {
            entries.push(pieces[last].clone());
            assert(texts(entries@) =~= texts(entries@.drop_last()).push(pieces@[last as int]@));
        }
        HistoryLog { entries }
    }

    /// Appends an accepted line.
    pub fn record(&mut self, line: String)
        ensures
            final(self)@ == old(self)@.push(line@),
    {
        self.entries.push(line);
        assert(self@ =~= old(self)@.push(line@));
    }

    /// Number of entries.
    pub fn len(&self) -> (r: usize)
        ensures
            r == self@.len(),
    {
        self.entries.len()
    }

    /// The entries, oldest first.
    pub fn entries(&self) -> (r: &Vec<String>)
        ensures
            texts(r@) == self@,
    {
        &self.entries
    }

    /// The listing printed by `history`: one numbered line per entry.
    pub fn listing(&self) -> (r: Vec<String>)
        ensures
            texts(r@) == history_listing(self@),
    {
        let mut out: Vec<String> = Vec::new();
        let mut i: usize = 0;
        while i < self.entries.len()
            invariant
                i <= self.entries@.len(),
                out@.len() == i,
                forall|j: int| 0 <= j < i ==> #[trigger] out@[j]@ == history_line((j + 1) as nat, self@[j]),
            decreases self.entries@.len() - i,
        {
            let number = decimal_text(i + 1);
            let mut line = pad_text(number.as_str(), NUMBER_WIDTH);
            line.append("  ");
            line.append(self.entries[i].as_str());
            proof {
                reveal_strlit("  ");
                assert("  "@ =~= seq![' ', ' ']);
            }
            assert(self@[i as int] == self.entries@[i as int]@);
            assert(line@ == history_line((i + 1) as nat, self@[i as int]));
            out.push(line);
            i = i + 1;
        }
        assert(texts(out@) =~= history_listing(self@));
        out
    }
}

/// Recording `k` lines into an empty log and listing it gives exactly `k`
/// lines; line `i` carries the number `i + 1` and the `i`-th line recorded.
pub proof fn lemma_history_listing(lines: Seq<Seq<char>>)
    ensures
        record_all(Seq::empty(), lines) == lines,
        history_listing(record_all(Seq::empty(), lines)).len() == lines.len(),
        forall|i: int| 0 <= i < lines.len() ==>
            #[trigger] history_listing(record_all(Seq::empty(), lines))[i]
                == history_line((i + 1) as nat, lines[i]),
    decreases lines.len(),
{
    if lines.len() > 0 {
        lemma_history_listing(lines.drop_last());
        assert(lines.drop_last().push(lines.last()) =~= lines);
    } else {
        assert(lines =~= Seq::<Seq<char>>::empty());
    }
}

} // verus!
