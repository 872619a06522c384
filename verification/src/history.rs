//! The history store: an ordered sequence of entries, each one marked
//! `Saved` (already persisted to the history file at least once) or `New`
//! (entered this session, not yet persisted). The distinction makes the
//! append flow idempotent: appending writes only the `New` entries and then
//! promotes them in place, so a second append writes nothing.
use vstd::prelude::*;

use crate::chars::{chars_to_string, spec_lines, spec_unlines, str_chars, unlines};
use crate::numfmt::{push_decimal, spec_decimal};

verus! {

/// One remembered command line, with its persistence provenance.
#[derive(Debug)]
pub enum HistoryEntry {
    /// Already written to the history file at least once.
    Saved(String),
    /// Entered this session, not yet persisted.
    New(String),
}

/// Mathematical model of a `HistoryEntry`.
pub ghost enum SpecEntry {
    Saved(Seq<char>),
    New(Seq<char>),
}

impl View for HistoryEntry {
    type V = SpecEntry;

    open spec fn view(&self) -> SpecEntry {
        match self {
            HistoryEntry::Saved(t) => SpecEntry::Saved(t@),
            HistoryEntry::New(t) => SpecEntry::New(t@),
        }
    }
}

impl DeepView for HistoryEntry {
    type V = SpecEntry;

    open spec fn deep_view(&self) -> SpecEntry {
        self@
    }
}

/// The command text of an entry, whatever its provenance.
pub open spec fn entry_text(e: SpecEntry) -> Seq<char> {
    match e {
        SpecEntry::Saved(t) => t,
        SpecEntry::New(t) => t,
    }
}

/// Whether an entry still awaits persistence.
pub open spec fn entry_is_new(e: SpecEntry) -> bool {
    e is New
}

/// The texts of the entries that still await persistence, in order.
pub open spec fn new_texts(es: Seq<SpecEntry>) -> Seq<Seq<char>>
    decreases es.len(),
{
    if es.len() == 0 {
        Seq::empty()
    } else if entry_is_new(es[0]) {
        seq![entry_text(es[0])] + new_texts(es.drop_first())
    } else {
        new_texts(es.drop_first())
    }
}

/// One displayed history line: four spaces, the 1-based number, two
/// spaces, the text.
pub open spec fn history_line(num: nat, text: Seq<char>) -> Seq<char> {
    seq![' ', ' ', ' ', ' '] + spec_decimal(num) + seq![' ', ' '] + text
}

/// Law: `history -w PATH` then a fresh start with `HISTFILE=PATH` loads
/// the same sequence. `write_out` hands the caller
/// `spec_unlines(texts)`; a fresh shell splits that file back into lines
/// and loads each as `Saved` — the loaded history has the same texts in
/// the same order, every entry `Saved`. This holds of texts that hold no
/// newline and do not end in a carriage return (a line split would eat
/// those); an input line can hold neither.
pub proof fn lemma_write_then_load(es: Seq<SpecEntry>)
    requires
        forall|i: int|
            0 <= i < es.len() ==> !entry_text(#[trigger] es[i]).contains('\n') && (entry_text(
                es[i],
            ).len() == 0 || entry_text(es[i]).last() != '\r'),
    ensures
        ({
            let texts = es.map_values(|e: SpecEntry| entry_text(e));
            let loaded = spec_lines(spec_unlines(texts)).map_values(
                |t: Seq<char>| SpecEntry::Saved(t),
            );
            &&& loaded.len() == es.len()
            &&& forall|i: int|
                0 <= i < es.len() ==> loaded[i] == SpecEntry::Saved(entry_text(#[trigger] es[i]))
        }),
{
    let texts = es.map_values(|e: SpecEntry| entry_text(e));
    assert forall|k: int|
        0 <= k < texts.len() implies !(#[trigger] texts[k]).contains('\n') && (texts[k].len() == 0
        || texts[k].last() != '\r') by {
        assert(texts[k] == entry_text(es[k]));
    }
    crate::chars::lemma_lines_round_trip(texts);
}

/// The history store.
pub struct History {
    pub entries: Vec<HistoryEntry>,
}

impl View for History {
    type V = Seq<SpecEntry>;

    open spec fn view(&self) -> Seq<SpecEntry> {
        self.entries.deep_view()
    }
}

impl History {
    /// An empty history.
    pub fn new() -> (r: History)
        ensures
            r@ == Seq::<SpecEntry>::empty(),
    {
        let h = History { entries: Vec::new() };
        proof {
            assert(h@ =~= Seq::<SpecEntry>::empty());
        }
        h
    }

    /// How many entries the history holds.
    pub fn len(&self) -> (r: usize)
        ensures
            r == self@.len(),
    {
        self.entries.len()
    }

    /// Remember one non-empty input line: exactly one `New` entry joins
    /// the end, nothing else changes.
    pub fn record(&mut self, line: String)
        ensures
            final(self)@ == old(self)@.push(SpecEntry::New(line@)),
    {
        let ghost before = self@;
        let ghost t = line@;
        self.entries.push(HistoryEntry::New(line));
        proof {
            assert(self@ =~= before.push(SpecEntry::New(t)));
        }
    }

    /// Take lines read from a history file: each one joins the end as a
    /// `Saved` entry, in file order.
    pub fn load_saved(&mut self, lines: &Vec<String>)
        ensures
            final(self)@ == old(self)@ + lines.deep_view().map_values(
                |t: Seq<char>| SpecEntry::Saved(t),
            ),
    {
        let ghost before = self@;
        let ghost lv = lines.deep_view();
        let mut i: usize = 0;
        while i < lines.len()
            invariant
                lv == lines.deep_view(),
                i <= lv.len(),
                self@ =~= before + lv.subrange(0, i as int).map_values(
                    |t: Seq<char>| SpecEntry::Saved(t),
                ),
            decreases lv.len() - i,
        {
            let ghost mid = self@;
            self.entries.push(HistoryEntry::Saved(lines[i].clone()));
            i += 1;
            proof {
                assert(self@ =~= mid.push(SpecEntry::Saved(lv[i - 1])));
                assert(lv.subrange(0, i as int).map_values(|t: Seq<char>| SpecEntry::Saved(t))
                    =~= lv.subrange(0, i - 1).map_values(|t: Seq<char>| SpecEntry::Saved(t)).push(
                    SpecEntry::Saved(lv[i - 1]),
                ));
                assert(self@ =~= before + lv.subrange(0, i as int).map_values(
                    |t: Seq<char>| SpecEntry::Saved(t),
                ));
            }
        }
        proof {
            assert(lv.subrange(0, lv.len() as int) =~= lv);
        }
    }

    /// The texts of all entries, in order: what `history -w` writes.
    pub fn texts(&self) -> (r: Vec<String>)
        ensures
            r.deep_view() == self@.map_values(|e: SpecEntry| entry_text(e)),
    {
        let ghost es = self@;
        let mut r: Vec<String> = Vec::new();
        let mut i: usize = 0;
        while i < self.entries.len()
            invariant
                es == self@,
                i <= es.len(),
                r.deep_view() =~= es.subrange(0, i as int).map_values(
                    |e: SpecEntry| entry_text(e),
                ),
            decreases es.len() - i,
        {
            let ghost before = r.deep_view();
            let text = match &self.entries[i] {
                HistoryEntry::Saved(t) => t.clone(),
                HistoryEntry::New(t) => t.clone(),
            };
            r.push(text);
            i += 1;
            proof {
                assert(r.deep_view() =~= before.push(entry_text(es[i - 1])));
                assert(es.subrange(0, i as int).map_values(|e: SpecEntry| entry_text(e))
                    =~= es.subrange(0, i - 1).map_values(|e: SpecEntry| entry_text(e)).push(
                    entry_text(es[i - 1]),
                ));
            }
        }
        proof {
            assert(es.subrange(0, es.len() as int) =~= es);
        }
        r
    }

    /// The texts of the entries not yet persisted, in order: what an
    /// append is to write. The entries keep their provenance; a successful
    /// append then calls `promote_new`.
    pub fn unsaved_texts(&self) -> (r: Vec<String>)
        ensures
            r.deep_view() == new_texts(self@),
    {
        let ghost es = self@;
        let n = self.entries.len();
        let mut out: Vec<String> = Vec::new();
        let mut i: usize = 0;
        proof {
            assert(es.subrange(0, es.len() as int) =~= es);
            assert(out.deep_view() + new_texts(es) =~= new_texts(es));
        }
        while i < n
            invariant
                es == self@,
                n == es.len(),
                i <= n,
                out.deep_view() + new_texts(es.subrange(i as int, es.len() as int)) =~= new_texts(
                    es,
                ),
            decreases n - i,
        {
            let ghost tail = es.subrange(i as int, es.len() as int);
            proof {
                assert(tail[0] == es[i as int]);
                assert(tail.drop_first() =~= es.subrange(i + 1, es.len() as int));
            }
            let ghost before = out.deep_view();
            match &self.entries[i] {
                HistoryEntry::Saved(_) => {},
                HistoryEntry::New(t) => {
                    out.push(t.clone());
                    proof {
                        assert(out.deep_view() =~= before.push(entry_text(es[i as int])));
                        assert(before.push(entry_text(es[i as int])) + new_texts(tail.drop_first())
                            =~= before + (seq![entry_text(es[i as int])] + new_texts(
                            tail.drop_first(),
                        )));
                    }
                },
            }
            i += 1;
        }
        proof {
            assert(es.subrange(n as int, es.len() as int) =~= Seq::<SpecEntry>::empty());
            assert(out.deep_view() + Seq::<Seq<char>>::empty() =~= out.deep_view());
        }
        out
    }

    /// The append flow of `history -a` and `exit`: hand back the texts of
    /// the `New` entries, in order, and promote every one of them to
    /// `Saved` in place. Afterwards no entry is `New`, every entry keeps
    /// its text, and nothing is reordered; appending the returned lines to
    /// the history file is the caller's part.
    pub fn promote_new(&mut self) -> (r: Vec<String>)
        ensures
            r.deep_view() == new_texts(old(self)@),
            final(self)@.len() == old(self)@.len(),
            forall|i: int|
                0 <= i < old(self)@.len() ==> final(self)@[i] == SpecEntry::Saved(
                    entry_text(old(self)@[i]),
                ),
            forall|i: int| 0 <= i < final(self)@.len() ==> !entry_is_new(final(self)@[i]),
    {
        let ghost es = self@;
        let n = self.entries.len();
        let mut out: Vec<String> = Vec::new();
        let mut promoted: Vec<HistoryEntry> = Vec::new();
        let mut i: usize = 0;
        proof {
            assert(es.subrange(0, es.len() as int) =~= es);
            assert(out.deep_view() + new_texts(es) =~= new_texts(es));
        }
        while i < n
            invariant
                es == self@,
                n == es.len(),
                i <= n,
                promoted@.len() == i,
                forall|j: int|
                    0 <= j < i ==> promoted@[j]@ == SpecEntry::Saved(entry_text(es[j])),
                out.deep_view() + new_texts(es.subrange(i as int, es.len() as int)) =~= new_texts(
                    es,
                ),
            decreases n - i,
        {
            let ghost tail = es.subrange(i as int, es.len() as int);
            proof {
                assert(tail[0] == es[i as int]);
                assert(tail.drop_first() =~= es.subrange(i + 1, es.len() as int));
            }
            let ghost before = out.deep_view();
            match &self.entries[i] {
                HistoryEntry::Saved(t) => {
                    promoted.push(HistoryEntry::Saved(t.clone()));
                },
                HistoryEntry::New(t) => {
                    out.push(t.clone());
                    promoted.push(HistoryEntry::Saved(t.clone()));
                    proof {
                        assert(out.deep_view() =~= before.push(entry_text(es[i as int])));
                        assert(before.push(entry_text(es[i as int])) + new_texts(tail.drop_first())
                            =~= before + (seq![entry_text(es[i as int])] + new_texts(
                            tail.drop_first(),
                        )));
                    }
                },
            }
            i += 1;
        }
        proof {
            assert(es.subrange(n as int, es.len() as int) =~= Seq::<SpecEntry>::empty());
            assert(out.deep_view() + Seq::<Seq<char>>::empty() =~= out.deep_view());
        }
        self.entries = promoted;
        out
    }

    /// The last `n` entries, displayed 1-based at their true positions:
    /// `history` with no count shows all, `history N` the last `N`.
    pub fn last_lines(&self, n: usize) -> (r: Vec<String>)
        requires
            n <= self@.len(),
        ensures
            r.deep_view() == Seq::new(
                n as nat,
                |k: int|
                    history_line(
                        (self@.len() - n as int + k + 1) as nat,
                        entry_text(self@[self@.len() - n as int + k]),
                    ),
            ),
    {
        let ghost es = self@;
        let total = self.entries.len();
        let start = total - n;
        let mut r: Vec<String> = Vec::new();
        let mut k: usize = 0;
        while k < n
            invariant
                es == self@,
                total == es.len(),
                start == total - n,
                n <= total,
                k <= n,
                r.deep_view() =~= Seq::new(
                    k as nat,
                    |j: int|
                        history_line(
                            (start + j + 1) as nat,
                            entry_text(es[start as int + j]),
                        ),
                ),
            decreases n - k,
        {
            let idx = start + k;
            let text = match &self.entries[idx] {
                HistoryEntry::Saved(t) => t.clone(),
                HistoryEntry::New(t) => t.clone(),
            };
            let mut line: Vec<char> = Vec::new();
            line.push(' ');
            line.push(' ');
            line.push(' ');
            line.push(' ');
            push_decimal((idx as u64) + 1, &mut line);
            line.push(' ');
            line.push(' ');
            let tc = str_chars(text.as_str());
            let mut j: usize = 0;
            let ghost head = line@;
            while j < tc.len()
                invariant
                    j <= tc@.len(),
                    line@ =~= head + tc@.subrange(0, j as int),
                decreases tc@.len() - j,
            {
                line.push(tc[j]);
                j += 1;
            }
            proof {
                assert(tc@.subrange(0, tc@.len() as int) =~= tc@);
                assert(line@ =~= history_line((idx + 1) as nat, entry_text(es[idx as int])));
            }
            let ghost before = r.deep_view();
            r.push(chars_to_string(line.as_slice()));
            k += 1;
            proof {
                assert(r.deep_view() =~= before.push(
                    history_line((start + k) as nat, entry_text(es[start + k - 1])),
                ));
                assert(r.deep_view() =~= Seq::new(
                    k as nat,
                    |j: int|
                        history_line(
                            (start + j + 1) as nat,
                            entry_text(es[start as int + j]),
                        ),
                ));
            }
        }
        r
    }

    /// The whole history as one file text, for `history -w`: every entry's
    /// text, newline-terminated, in order.
    pub fn write_out(&self) -> (r: String)
        ensures
            r@ == spec_unlines(self@.map_values(|e: SpecEntry| entry_text(e))),
    {
        let ts = self.texts();
        unlines(&ts)
    }
}

} // verus!
