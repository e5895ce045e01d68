//! The chunked dispatcher: entries are translated one chunk at a time, all
//! lines of a chunk concurrently, and the chunk's answers are written back only
//! once every line of it has succeeded.
//!
//! The dispatcher is a state machine. Its owner asks for the requests of the
//! current chunk, performs them however it likes, and hands back one outcome
//! per slot of the chunk; only then does the next chunk begin.
use vstd::prelude::*;
use vstd::arithmetic::div_mod::{lemma_fundamental_div_mod, lemma_mod_pos_bound};
use crate::client::{TranslationFailure, translated_text};

verus! {

/// One timed subtitle line. Times are milliseconds from the start of the media.
#[derive(Debug)]
pub struct Entry {
    pub text: String,
    pub start: i64,
    pub end: i64,
    pub coordinates: Option<String>,
}

/// A line that must be sent to the service: its position among all entries
/// and its text.
#[derive(Debug)]
pub struct LineRequest {
    pub index: usize,
    pub text: String,
}

/// A failed line, with the chunk and the position it stands at.
#[derive(Debug)]
pub struct EntryFailure {
    pub chunk: usize,
    pub line: usize,
    pub cause: TranslationFailure,
}

/// The number of chunks of at most `k` entries that `n` entries fill.
pub open spec fn ceil_div(n: int, k: int) -> int {
    (n + k - 1) / k
}

/// The text that an outcome stands for; a failure stands for none.
pub open spec fn answer_of(r: Result<String, TranslationFailure>) -> Seq<char> {
    match r {
        Ok(s) => s@,
        Err(_) => Seq::empty(),
    }
}

/// One of the `answered` pairs is for position `i` and carries `out`.
pub open spec fn answered_at(
    answered: Seq<(usize, Result<String, TranslationFailure>)>,
    i: int,
    out: Result<String, TranslationFailure>,
) -> bool {
    exists|j: int| 0 <= j < answered.len() && (#[trigger] answered[j]).0 == i && answered[j].1 == out
}

/// None of the `answered` pairs is for position `i`.
pub open spec fn unanswered(answered: Seq<(usize, Result<String, TranslationFailure>)>, i: int) -> bool {
    forall|j: int| 0 <= j < answered.len() ==> (#[trigger] answered[j]).0 != i
}

/// An outcome that is a success with the empty text.
pub open spec fn is_empty_success(r: Result<String, TranslationFailure>) -> bool {
    r is Ok && answer_of(r) == Seq::<char>::empty()
}

/// Two entries that differ at most in their text.
pub open spec fn same_timing(a: Entry, b: Entry) -> bool {
    a.start == b.start && a.end == b.end && a.coordinates == b.coordinates
}

proof fn lemma_chunks_cover(n: int, k: int, c: int)
    requires
        k > 0,
        n >= 0,
        c >= 0,
    ensures
        c * k < n <==> c < ceil_div(n, k),
{
    let q = ceil_div(n, k);
    lemma_fundamental_div_mod(n + k - 1, k);
    lemma_mod_pos_bound(n + k - 1, k);
    assert(k * q >= n && k * (q - 1) < n) by (nonlinear_arith)
        requires
            n + k - 1 == k * q + (n + k - 1) % k,
            0 <= (n + k - 1) % k < k,
    ;
    if c < q {
        assert(c * k <= (q - 1) * k) by (nonlinear_arith)
            requires
                c <= q - 1,
                k > 0,
        ;
    } else {
        assert(c * k >= q * k) by (nonlinear_arith)
            requires
                c >= q,
                k > 0,
        ;
    }
}

/// The number of chunks of at most `k` entries that `n` entries fill.
pub fn chunk_count(n: usize, k: usize) -> (r: usize)
    requires
        k > 0,
    ensures
        r == ceil_div(n as int, k as int),
{
    let q = n / k;
    let m = n % k;
    proof {
        lemma_fundamental_div_mod(n as int, k as int);
        lemma_mod_pos_bound(n as int, k as int);
    }
    if m == 0 {
        proof {
            vstd::arithmetic::div_mod::lemma_fundamental_div_mod_converse(
                n + k - 1,
                k as int,
                q as int,
                k - 1,
            );
        }
        q
    } else {
        proof {
            assert(n + k - 1 == (q + 1) * k + (m - 1)) by (nonlinear_arith)
                requires
                    n == k * q + m,
            ;
            vstd::arithmetic::div_mod::lemma_fundamental_div_mod_converse(
                n + k - 1,
                k as int,
                q + 1,
                m - 1,
            );
            assert(q < n) by (nonlinear_arith)
                requires
                    n == k * q + m,
                    m > 0,
                    k > 0,
            ;
        }
        q + 1
    }
}

/// Drives the translation of a sequence of entries, chunk by chunk.
pub struct Dispatcher {
    entries: Vec<Entry>,
    chunk_size: usize,
    next: usize,
    chunk: usize,
    failed: bool,
    original: Ghost<Seq<Entry>>,
    answers: Ghost<Seq<Seq<char>>>,
}

impl Dispatcher {
    /// The entries as they stand now.
    pub closed spec fn entries_view(self) -> Seq<Entry> {
        self.entries@
    }

    /// The entries as they were handed in.
    pub closed spec fn original(self) -> Seq<Entry> {
        self.original@
    }

    /// For each position of a completed chunk, the text that the service gave.
    pub closed spec fn answers(self) -> Seq<Seq<char>> {
        self.answers@
    }

    pub closed spec fn chunk_size_view(self) -> nat {
        self.chunk_size as nat
    }

    /// Position of the first entry of the current chunk.
    pub closed spec fn next_view(self) -> nat {
        self.next as nat
    }

    /// Number of chunks completed.
    pub closed spec fn chunk_view(self) -> nat {
        self.chunk as nat
    }

    pub closed spec fn failed_view(self) -> bool {
        self.failed
    }

    /// One past the last position of the current chunk.
    pub open spec fn chunk_end(self) -> int {
        let n = self.entries_view().len() as int;
        let k = self.chunk_size_view() as int;
        if n - self.next_view() <= k {
            n
        } else {
            self.next_view() + k
        }
    }

    /// Every chunk has been completed and none failed.
    pub open spec fn done(self) -> bool {
        !self.failed_view() && self.next_view() == self.entries_view().len()
    }

    /// Slot `j` of the current chunk holds a line that was sent and failed.
    pub open spec fn slot_fails(self, results: Seq<Result<String, TranslationFailure>>, j: int) -> bool {
        self.entries_view()[self.next_view() + j].text@.len() > 0 && results[j] is Err
    }

    pub closed spec fn wf(self) -> bool {
        let n = self.entries@.len() as int;
        let k = self.chunk_size as int;
        &&& k > 0
        &&& self.original@.len() == n
        &&& self.answers@.len() == n
        &&& self.next <= n
        &&& self.chunk <= ceil_div(n, k)
        &&& self.next == if self.chunk * k < n { self.chunk * k } else { n }
        &&& forall|i: int| 0 <= i < n ==> same_timing(#[trigger] self.entries@[i], self.original@[i])
        &&& forall|i: int|
            0 <= i < self.next ==> (#[trigger] self.entries@[i]).text@ == translated_text(
                self.original@[i].text@,
                self.answers@[i],
            )
        &&& forall|i: int|
            self.next <= i < n ==> (#[trigger] self.entries@[i]).text@ == self.original@[i].text@
    }

    /// A dispatcher over `entries`, in chunks of `chunk_size`.
    pub fn new(entries: Vec<Entry>, chunk_size: usize) -> (r: Dispatcher)
        requires
            chunk_size > 0,
        ensures
            r.wf(),
            r.entries_view() == entries@,
            r.original() == entries@,
            r.chunk_size_view() == chunk_size,
            r.next_view() == 0,
            r.chunk_view() == 0,
            !r.failed_view(),
            r.answers().len() == entries@.len(),
    {
        let ghost n = entries@.len();
        let r = Dispatcher {
            entries,
            chunk_size,
            next: 0,
            chunk: 0,
            failed: false,
            original: Ghost(entries@),
            answers: Ghost(Seq::new(n, |i: int| Seq::empty())),
        };
        proof {
            lemma_chunks_cover(n as int, chunk_size as int, 0);
        }
        r
    }

    /// The bounds of the current chunk: its first position and one past its last.
    pub fn chunk_bounds(&self) -> (r: (usize, usize))
        requires
            self.wf(),
        ensures
            r.0 == self.next_view(),
            r.1 == self.chunk_end(),
            r.0 <= r.1 <= self.entries_view().len(),
    {
        let n = self.entries.len();
        if n - self.next <= self.chunk_size {
            (self.next, n)
        } else {
            (self.next, self.next + self.chunk_size)
        }
    }

    /// The lines of the current chunk that must be sent to the service, in
    /// order: every non-empty line of the chunk, and no other. A failed or a
    /// finished dispatcher has none.
    pub fn requests(&self) -> (r: Vec<LineRequest>)
        requires
            self.wf(),
        ensures
            self.failed_view() ==> r@.len() == 0,
            self.next_view() == self.chunk_end() ==> r@.len() == 0,
            forall|j: int|
                0 <= j < r@.len() ==> {
                    let i = (#[trigger] r@[j]).index as int;
                    &&& self.next_view() <= i < self.chunk_end()
                    &&& self.chunk_view() * self.chunk_size_view() <= i
                    &&& i < (self.chunk_view() + 1) * self.chunk_size_view()
                    &&& self.entries_view()[i].text@.len() > 0
                    &&& r@[j].text == self.entries_view()[i].text
                },
            forall|j1: int, j2: int|
                0 <= j1 < j2 < r@.len() ==> (#[trigger] r@[j1]).index < (#[trigger] r@[j2]).index,
            !self.failed_view() ==> forall|i: int|
                self.next_view() <= i < self.chunk_end() && (
                #[trigger] self.entries_view()[i]).text@.len() > 0 ==> exists|j: int|
                    0 <= j < r@.len() && (#[trigger] r@[j]).index == i,
    {
        let mut r: Vec<LineRequest> = Vec::new();
        if self.failed {
            return r;
        }
        let (lo, hi) = self.chunk_bounds();
        proof {
            let k = self.chunk_size as int;
            assert(lo == self.chunk * k || lo == hi);
            assert((self.chunk + 1) * k == self.chunk * k + k) by (nonlinear_arith);
        }
        let mut pos: usize = lo;
        while pos < hi
            invariant
                self.wf(),
                !self.failed,
                lo == self.next,
                hi == self.chunk_end(),
                lo <= pos <= hi,
                lo == hi || lo == self.chunk * self.chunk_size,
                hi <= lo + self.chunk_size,
                (self.chunk + 1) * self.chunk_size == self.chunk * self.chunk_size + self.chunk_size,
                forall|j: int|
                    0 <= j < r@.len() ==> {
                        let i = (#[trigger] r@[j]).index as int;
                        &&& lo <= i < pos
                        &&& self.entries@[i].text@.len() > 0
                        &&& r@[j].text == self.entries@[i].text
                    },
                forall|j1: int, j2: int|
                    0 <= j1 < j2 < r@.len() ==> (#[trigger] r@[j1]).index < (#[trigger] r@[j2]).index,
                forall|i: int|
                    lo <= i < pos && (#[trigger] self.entries@[i]).text@.len() > 0 ==> exists|j: int|
                        0 <= j < r@.len() && (#[trigger] r@[j]).index == i,
            decreases hi - pos,
        {
            let ghost before = r@;
            let text = &self.entries[pos].text;
            if text.as_str().unicode_len() > 0 {
                r.push(LineRequest { index: pos, text: text.clone() });
            }
            proof {
                assert forall|i: int|
                    lo <= i < pos + 1 && (#[trigger] self.entries@[i]).text@.len() > 0 implies exists|
                        j: int,
                    |
                    0 <= j < r@.len() && (#[trigger] r@[j]).index == i by {
                    if i < pos {
                        let j = choose|j: int| 0 <= j < before.len() && (#[trigger] before[j]).index == i;
                        assert(r@[j] == before[j]);
                    } else {
                        assert(r@[r@.len() - 1].index == i);
                    }
                }
            }
            pos = pos + 1;
        }
        if r.len() > 0 {
            assert(lo <= r@[0].index < hi);
        }
        r
    }

    /// Takes the outcome of every slot of the current chunk, in slot order;
    /// outcomes in the slots of empty lines are not looked at. If a line that
    /// was sent failed, the first such one is returned, nothing is written and
    /// the dispatcher stops. Else each sent line takes its translated text, in
    /// place, and the next chunk becomes current.
    pub fn complete_chunk(&mut self, results: Vec<Result<String, TranslationFailure>>) -> (r: Result<
        (),
        EntryFailure,
    >)
        requires
            old(self).wf(),
            !old(self).failed_view(),
            old(self).next_view() < old(self).entries_view().len(),
            results@.len() == old(self).chunk_end() - old(self).next_view(),
        ensures
            final(self).wf(),
            final(self).original() == old(self).original(),
            final(self).chunk_size_view() == old(self).chunk_size_view(),
            final(self).entries_view().len() == old(self).entries_view().len(),
            r is Err <==> exists|j: int|
                0 <= j < results@.len() && old(self).slot_fails(results@, j),
            r matches Err(f) ==> {
                let j = f.line - old(self).next_view();
                &&& f.chunk == old(self).chunk_view()
                &&& 0 <= j < results@.len()
                &&& old(self).slot_fails(results@, j)
                &&& results@[j] == Err::<String, TranslationFailure>(f.cause)
                &&& forall|j2: int| 0 <= j2 < j ==> !old(self).slot_fails(results@, j2)
                &&& final(self).failed_view()
                &&& final(self).entries_view() == old(self).entries_view()
                &&& final(self).answers() == old(self).answers()
                &&& final(self).next_view() == old(self).next_view()
                &&& final(self).chunk_view() == old(self).chunk_view()
            },
            r is Ok ==> {
                &&& !final(self).failed_view()
                &&& final(self).next_view() == old(self).chunk_end()
                &&& final(self).chunk_view() == old(self).chunk_view() + 1
                &&& forall|i: int|
                    0 <= i < old(self).entries_view().len() ==> same_timing(
                        #[trigger] final(self).entries_view()[i],
                        old(self).entries_view()[i],
                    )
                &&& forall|i: int|
                    old(self).next_view() <= i < old(self).chunk_end() ==> (
                    #[trigger] final(self).entries_view()[i]).text@ == translated_text(
                        old(self).entries_view()[i].text@,
                        answer_of(results@[i - old(self).next_view()]),
                    )
                &&& forall|i: int|
                    0 <= i < old(self).entries_view().len() && !(old(self).next_view() <= i
                        < old(self).chunk_end()) ==> #[trigger] final(self).entries_view()[i]
                        == old(self).entries_view()[i]
                &&& final(self).answers().len() == old(self).answers().len()
                &&& forall|i: int|
                    old(self).next_view() <= i < old(self).chunk_end() ==> #[trigger] final(self).answers()[i]
                        == answer_of(results@[i - old(self).next_view()])
                &&& forall|i: int|
                    0 <= i < old(self).answers().len() && !(old(self).next_view() <= i
                        < old(self).chunk_end()) ==> #[trigger] final(self).answers()[i]
                        == old(self).answers()[i]
            },
    {
        let (lo, hi) = self.chunk_bounds();
        let mut j: usize = 0;
        while j < results.len()
            invariant
                *self == *old(self),
                self.wf(),
                !self.failed,
                lo == self.next,
                hi == self.chunk_end(),
                lo < hi,
                results@.len() == hi - lo,
                j <= results@.len(),
                forall|j2: int| 0 <= j2 < j ==> !self.slot_fails(results@, j2),
            decreases results@.len() - j,
        {
            let sent = self.entries[lo + j].text.as_str().unicode_len() > 0;
            let fails = match &results[j] {
                Err(_) => true,
                Ok(_) => false,
            };
            if sent && fails {
                assert(old(self).slot_fails(results@, j as int));
                self.failed = true;
                let mut results = results;
                let bad = results.remove(j);
                match bad {
                    Err(cause) => {
                        return Err(EntryFailure { chunk: self.chunk, line: lo + j, cause });
                    },
                    Ok(_) => {
                        assert(false);
                        return Ok(());
                    },
                }
            }
            j = j + 1;
        }
        let ghost res = results@;
        let ghost before = self.entries@;
        let ghost n = before.len() as int;
        assert forall|j2: int| 0 <= j2 < res.len() implies !(#[trigger] res[j2] is Err
            && before[lo + j2].text@.len() > 0) by {
            assert(!self.slot_fails(results@, j2));
        }
        let mut results = results;
        while results.len() > 0
            invariant
                old(self).wf(),
                self.chunk_size == old(self).chunk_size,
                self.chunk == old(self).chunk,
                self.next == old(self).next,
                self.failed == old(self).failed,
                self.original == old(self).original,
                self.answers == old(self).answers,
                lo == self.next,
                hi == old(self).chunk_end(),
                before == old(self).entries@,
                lo < hi <= n,
                res.len() == hi - lo,
                results@.len() <= res.len(),
                results@ == res.subrange(0, results@.len() as int),
                self.entries@.len() == n,
                forall|j2: int| 0 <= j2 < res.len() ==> !(#[trigger] res[j2] is Err && before[lo + j2].text@.len() > 0),
                forall|i: int| 0 <= i < n ==> same_timing(#[trigger] self.entries@[i], before[i]),
                forall|i: int|
                    lo + results@.len() <= i < hi ==> (#[trigger] self.entries@[i]).text@
                        == translated_text(before[i].text@, answer_of(res[i - lo])),
                forall|i: int|
                    0 <= i < n && !(lo + results@.len() <= i < hi) ==> #[trigger] self.entries@[i]
                        == before[i],
            decreases results@.len(),
        {
            let out = results.pop().unwrap();
            let i = lo + results.len();
            assert(out == res[i - lo]);
            let sent = self.entries[i].text.as_str().unicode_len() > 0;
            match out {
                Ok(t) => {
                    if sent {
                        self.entries[i].text = t;
                    } else {
                        assert(before[i as int].text@ =~= Seq::empty());
                    }
                },
                Err(_) => {
                    assert(before[i as int].text@ =~= Seq::empty());
                },
            }
        }
        proof {
            let k = self.chunk_size as int;
            lemma_chunks_cover(n, k, self.chunk as int);
            let c = self.chunk as int;
            assert(c <= c * k) by (nonlinear_arith)
                requires
                    k >= 1,
                    c >= 0,
            ;
            assert((self.chunk + 1) * k == self.chunk * k + k) by (nonlinear_arith);
            self.answers = Ghost(
                Seq::new(
                    n as nat,
                    |i: int|
                        if lo <= i < hi {
                            answer_of(res[i - lo])
                        } else {
                            self.answers@[i]
                        },
                ),
            );
        }
        self.next = hi;
        self.chunk = self.chunk + 1;
        Ok(())
    }

    /// Lays the outcomes of the sent lines, each paired with its position, out
    /// in the slots of the current chunk, whatever order they came in. A slot
    /// that no pair names (an empty line) holds a success with the empty text;
    /// pairs for positions outside the chunk are left out.
    pub fn slot_outcomes(&self, answered: Vec<(usize, Result<String, TranslationFailure>)>) -> (r: Vec<
        Result<String, TranslationFailure>,
    >)
        requires
            self.wf(),
        ensures
            r@.len() == self.chunk_end() - self.next_view(),
            forall|t: int|
                0 <= t < r@.len() ==> answered_at(answered@, self.next_view() + t, #[trigger] r@[t])
                    || (unanswered(answered@, self.next_view() + t) && is_empty_success(r@[t])),
    {
        let (lo, hi) = self.chunk_bounds();
        let mut r: Vec<Result<String, TranslationFailure>> = Vec::new();
        let mut pos: usize = lo;
        while pos < hi
            invariant
                lo <= pos <= hi,
                r@.len() == pos - lo,
                forall|t: int| 0 <= t < r@.len() ==> is_empty_success(#[trigger] r@[t]),
            decreases hi - pos,
        {
            let empty = String::new();
            r.push(Ok(empty));
            pos = pos + 1;
        }
        let ghost all = answered@;
        let ghost mut done: Seq<(usize, Result<String, TranslationFailure>)> = Seq::empty();
        let mut answered = answered;
        while answered.len() > 0
            invariant
                all == answered@ + done,
                r@.len() == hi - lo,
                forall|t: int|
                    0 <= t < r@.len() ==> answered_at(done, lo + t, #[trigger] r@[t]) || (unanswered(
                        done,
                        lo + t,
                    ) && is_empty_success(r@[t])),
            decreases answered@.len(),
        {
            let ghost before = r@;
            let ghost rest = answered@;
            let pair = answered.pop().unwrap();
            let ghost new_done = seq![pair] + done;
            proof {
                assert(rest == answered@.push(pair));
                assert(all == answered@ + new_done);
            }
            let (idx, out) = pair;
            if lo <= idx && idx < hi {
                r.set(idx - lo, out);
            }
            proof {
                assert forall|t: int| 0 <= t < r@.len() implies answered_at(
                    new_done,
                    lo + t,
                    #[trigger] r@[t],
                ) || (unanswered(new_done, lo + t) && is_empty_success(r@[t])) by {
                    if lo + t == idx {
                        assert(new_done[0] == pair);
                    } else {
                        assert(r@[t] == before[t]);
                        if answered_at(done, lo + t, before[t]) {
                            let j = choose|j: int|
                                0 <= j < done.len() && (#[trigger] done[j]).0 == lo + t && done[j].1
                                    == before[t];
                            assert(new_done[j + 1] == done[j]);
                        } else {
                            assert forall|j: int| 0 <= j < new_done.len() implies (
                            #[trigger] new_done[j]).0 != lo + t by {
                                if j > 0 {
                                    assert(new_done[j] == done[j - 1]);
                                }
                            }
                        }
                    }
                }
                done = new_done;
            }
        }
        proof {
            assert(all =~= done);
        }
        r
    }

    /// Every chunk has been completed and none failed.
    pub fn is_done(&self) -> (r: bool)
        requires
            self.wf(),
        ensures
            r == self.done(),
    {
        !self.failed && self.next == self.entries.len()
    }

    /// A chunk failed; nothing more will be translated.
    pub fn has_failed(&self) -> (r: bool)
        ensures
            r == self.failed_view(),
    {
        self.failed
    }

    /// The number of chunks completed so far.
    pub fn chunk_index(&self) -> (r: usize)
        ensures
            r == self.chunk_view(),
    {
        self.chunk
    }

    pub fn chunk_size(&self) -> (r: usize)
        ensures
            r == self.chunk_size_view(),
    {
        self.chunk_size
    }

    /// The entries as they stand now.
    pub fn entries(&self) -> (r: &Vec<Entry>)
        ensures
            r@ == self.entries_view(),
    {
        &self.entries
    }

    /// Gives the entries back, as they stand now.
    pub fn into_entries(self) -> (r: Vec<Entry>)
        ensures
            r@ == self.entries_view(),
    {
        self.entries
    }
}

/// Once a run is done, the entries are those handed in, in the same order,
/// with the same times and coordinates, and the text at each position is what
/// the service gave for the text handed in at that position.
pub proof fn lemma_order_preserved(d: Dispatcher)
    requires
        d.wf(),
        d.done(),
    ensures
        d.entries_view().len() == d.original().len(),
        forall|i: int|
            0 <= i < d.original().len() ==> same_timing(#[trigger] d.entries_view()[i], d.original()[i])
                && d.entries_view()[i].text@ == translated_text(d.original()[i].text@, d.answers()[i]),
{
}

/// In every state of a run, a line that was handed in empty is empty.
pub proof fn lemma_empty_lines_stay_empty(d: Dispatcher)
    requires
        d.wf(),
    ensures
        forall|i: int|
            0 <= i < d.original().len() && (#[trigger] d.original()[i]).text@.len() == 0
                ==> d.entries_view()[i].text@.len() == 0,
{
}

/// A run of `n` entries in chunks of `k` is done after exactly `ceil(n / k)`
/// chunks, each one completed before the next began.
pub proof fn lemma_chunk_count(d: Dispatcher)
    requires
        d.wf(),
        d.done(),
    ensures
        d.chunk_view() == ceil_div(d.entries_view().len() as int, d.chunk_size_view() as int),
{
    lemma_chunks_cover(d.entries@.len() as int, d.chunk_size as int, d.chunk as int);
}

} // verus!
