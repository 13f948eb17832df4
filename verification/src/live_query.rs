//! Handing a query result out in batches: the first batch when the query
//! starts, each further batch against the cursor that the batch before it
//! returned.

use vstd::prelude::*;
use crate::error::QueryExecutionFail;

verus! {

/// The most rows that one batch may be asked to hold.
pub const MAX_FETCH_SIZE: u64 = 10_000;

/// The rows that one batch holds where the query does not say.
pub const DEFAULT_FETCH_SIZE: u64 = 100;

/// How many rows a query wants per batch: a positive number, or nothing for
/// the default.
#[derive(Clone, Copy, Debug, PartialEq, Eq)]
pub struct FetchSize {
    fetch_size: Option<u64>,
}

impl FetchSize {
    #[verifier::type_invariant]
    spec fn positive(self) -> bool {
        self.fetch_size != Some(0u64)
    }

    /// The number that was asked for, if any.
    pub closed spec fn asked(self) -> Option<u64> {
        self.fetch_size
    }

    /// The rows per batch that this asks for.
    pub open spec fn effective(self) -> u64 {
        match self.asked() {
            Some(n) => n,
            None => DEFAULT_FETCH_SIZE,
        }
    }

    /// A fetch size of `fetch_size` rows; there is none of zero rows.
    pub fn new(fetch_size: Option<u64>) -> (r: Option<FetchSize>)
        ensures
            match r {
                Some(f) => fetch_size != Some(0u64) && f.asked() == fetch_size,
                None => fetch_size == Some(0u64),
            },
    {
        match fetch_size {
            Some(0) => None,
            _ => Some(FetchSize { fetch_size }),
        }
    }

    /// The default fetch size.
    pub fn default_size() -> (r: FetchSize)
        ensures
            r.asked() == None::<u64>,
            r.effective() == DEFAULT_FETCH_SIZE,
    {
        FetchSize { fetch_size: None }
    }

    /// The rows per batch that this asks for.
    pub fn get(self) -> (n: u64)
        ensures
            n == self.effective(),
            n > 0,
    {
        proof {
            use_type_invariant(self);
        }
        match self.fetch_size {
            Some(n) => n,
            None => DEFAULT_FETCH_SIZE,
        }
    }
}

/// The token that continues a live query: which query, and how many of its
/// rows have been handed out.
#[derive(Clone, Copy, Debug, PartialEq, Eq, Structural)]
pub struct Cursor {
    pub query: usize,
    pub position: usize,
}

/// One batch of a query result.
#[derive(Debug, PartialEq, Eq)]
pub struct Batch<T> {
    /// The rows of this batch, in the order of the result.
    pub rows: Vec<T>,
    /// How many rows of the result come after this batch.
    pub remaining_items: usize,
    /// The cursor for the next batch, where rows remain.
    pub continue_cursor: Option<Cursor>,
}

/// A query whose result has not been handed out in full, as plain values.
pub struct LiveQueryView<T> {
    /// The rows still to be handed out.
    pub rest: Seq<T>,
    /// How many rows have been handed out.
    pub position: nat,
    /// The rows per batch.
    pub fetch_size: nat,
}

#[derive(Debug, PartialEq, Eq)]
struct LiveQuery<T> {
    rest: Vec<T>,
    position: usize,
    fetch_size: usize,
}

/// The queries whose results have not been handed out in full.
#[derive(Debug, PartialEq, Eq)]
pub struct LiveQueryStore<T> {
    slots: Vec<Option<LiveQuery<T>>>,
}

/// The first `n` rows of `rows`, or all of them where there are fewer.
pub open spec fn first_rows<T>(rows: Seq<T>, n: nat) -> Seq<T> {
    if n < rows.len() {
        rows.subrange(0, n as int)
    } else {
        rows
    }
}

/// What comes after the first `n` rows of `rows`.
pub open spec fn later_rows<T>(rows: Seq<T>, n: nat) -> Seq<T> {
    if n < rows.len() {
        rows.subrange(n as int, rows.len() as int)
    } else {
        Seq::empty()
    }
}

/// A batch and what it leaves are, together, the rows that were there.
pub proof fn lemma_batches_partition<T>(rows: Seq<T>, n: nat)
    ensures
        first_rows(rows, n) + later_rows(rows, n) == rows,
        first_rows(rows, n).len() <= n,
{
    assert(first_rows(rows, n) + later_rows(rows, n) =~= rows);
}

impl<T> LiveQueryStore<T> {
    #[verifier::type_invariant]
    spec fn inv(self) -> bool {
        forall|q: int|
            0 <= q < self.slots@.len() ==> match #[trigger] self.slots@[q] {
                Some(live) => live.fetch_size > 0 && live.rest@.len() > 0 && live.position
                    + live.rest@.len() <= usize::MAX,
                None => true,
            }
    }

    /// The live query under `query`, if there is one.
    pub closed spec fn live(&self, query: int) -> Option<LiveQueryView<T>> {
        if 0 <= query < self.slots@.len() {
            match self.slots@[query] {
                Some(live) => Some(
                    LiveQueryView {
                        rest: live.rest@,
                        position: live.position as nat,
                        fetch_size: live.fetch_size as nat,
                    },
                ),
                None => None,
            }
        } else {
            None
        }
    }

    /// A store without live queries.
    pub fn new() -> (r: Self)
        ensures
            forall|q: int| r.live(q) is None,
    {
        LiveQueryStore { slots: Vec::new() }
    }

    /// Starts handing out `rows`: returns the first batch and, where rows
    /// remain, keeps them as a live query and returns its cursor. A fetch
    /// size above [`MAX_FETCH_SIZE`] is refused before anything is done.
    pub fn start(&mut self, rows: Vec<T>, fetch_size: FetchSize) -> (r: Result<
        Batch<T>,
        QueryExecutionFail,
    >)
        ensures
            match r {
                Err(e) => fetch_size.effective() > MAX_FETCH_SIZE && e
                    == QueryExecutionFail::FetchSizeTooBig && *final(self) == *old(self),
                Ok(batch) => {
                    let n = fetch_size.effective() as nat;
                    &&& fetch_size.effective() <= MAX_FETCH_SIZE
                    &&& batch.rows@ == first_rows(rows@, n)
                    &&& batch.remaining_items == later_rows(rows@, n).len()
                    &&& match batch.continue_cursor {
                        None => later_rows(rows@, n).len() == 0 && *final(self) == *old(self),
                        Some(cursor) => {
                            &&& later_rows(rows@, n).len() > 0
                            &&& cursor.position == n
                            &&& old(self).live(cursor.query as int) is None
                            &&& final(self).live(cursor.query as int) == Some(
                                LiveQueryView {
                                    rest: later_rows(rows@, n),
                                    position: n,
                                    fetch_size: n,
                                },
                            )
                            &&& forall|q: int|
                                q != cursor.query ==> final(self).live(q) == old(self).live(q)
                        },
                    }
                },
            },
    {
        let size = fetch_size.get();
        if size > MAX_FETCH_SIZE {
            return Err(QueryExecutionFail::FetchSizeTooBig);
        }
        let n = size as usize;
        let mut rows = rows;
        if rows.len() <= n {
            return Ok(Batch { rows, remaining_items: 0, continue_cursor: None });
        }
        let rest = rows.split_off(n);
        let remaining_items = rest.len();
        proof {
            use_type_invariant(&*self);
        }
        let mut slots = Vec::new();
        std::mem::swap(&mut slots, &mut self.slots);
        let ghost before = slots@;
        let mut q: usize = 0;
        while q < slots.len() && slots[q].is_some()
            invariant
                q <= slots@.len(),
                slots@ == before,
            decreases slots@.len() - q,
        {
            q = q + 1;
        }
        let entry = Some(LiveQuery { rest, position: n, fetch_size: n });
        if q < slots.len() {
            slots[q] = entry;
        } else {
            slots.push(entry);
        }
        self.slots = slots;
        Ok(
            Batch {
                rows,
                remaining_items,
                continue_cursor: Some(Cursor { query: q, position: n }),
            },
        )
    }

    /// Hands out the next batch of the live query that `cursor` names. The
    /// cursor is invalid, and nothing is done, where no such query is live
    /// or where it has handed out another number of rows than the cursor
    /// says. A query that has handed out its last row is no longer live.
    pub fn continue_query(&mut self, cursor: Cursor) -> (r: Result<Batch<T>, QueryExecutionFail>)
        ensures
            match r {
                Err(e) => e == QueryExecutionFail::CursorInvalid && *final(self) == *old(self) && (
                old(self).live(cursor.query as int) is None || old(self).live(
                    cursor.query as int,
                )->0.position != cursor.position),
                Ok(batch) => {
                    &&& old(self).live(cursor.query as int) is Some
                    &&& {
                        let live = old(self).live(cursor.query as int)->0;
                        &&& live.position == cursor.position
                        &&& batch.rows@ == first_rows(live.rest, live.fetch_size)
                        &&& batch.remaining_items == later_rows(live.rest, live.fetch_size).len()
                        &&& match batch.continue_cursor {
                            None => later_rows(live.rest, live.fetch_size).len() == 0
                                && final(self).live(cursor.query as int) is None,
                            Some(next) => {
                                &&& later_rows(live.rest, live.fetch_size).len() > 0
                                &&& next.query == cursor.query
                                &&& next.position == live.position + batch.rows@.len()
                                &&& final(self).live(cursor.query as int) == Some(
                                    LiveQueryView {
                                        rest: later_rows(live.rest, live.fetch_size),
                                        position: next.position as nat,
                                        fetch_size: live.fetch_size,
                                    },
                                )
                            },
                        }
                    }
                    &&& forall|q: int|
                        q != cursor.query ==> final(self).live(q) == old(self).live(q)
                },
            },
    {
        proof {
            use_type_invariant(&*self);
        }
        if cursor.query >= self.slots.len() {
            return Err(QueryExecutionFail::CursorInvalid);
        }
        match &self.slots[cursor.query] {
            Some(live) => {
                if live.position != cursor.position {
                    return Err(QueryExecutionFail::CursorInvalid);
                }
            },
            None => {
                return Err(QueryExecutionFail::CursorInvalid);
            },
        }
        let mut slots = Vec::new();
        std::mem::swap(&mut slots, &mut self.slots);
        let mut taken: Option<LiveQuery<T>> = None;
        std::mem::swap(&mut taken, &mut slots[cursor.query]);
        let live = match taken {
            Some(live) => live,
            None => vstd::pervasive::unreached(),
        };
        let LiveQuery { rest, position, fetch_size } = live;
        let mut rows = rest;
        if rows.len() <= fetch_size {
            self.slots = slots;
            return Ok(Batch { rows, remaining_items: 0, continue_cursor: None });
        }
        let rest = rows.split_off(fetch_size);
        let remaining_items = rest.len();
        let next = position + fetch_size;
        slots[cursor.query] = Some(LiveQuery { rest, position: next, fetch_size });
        self.slots = slots;
        Ok(
            Batch {
                rows,
                remaining_items,
                continue_cursor: Some(Cursor { query: cursor.query, position: next }),
            },
        )
    }
}

impl<T> LiveQueryStore<T> {
    /// Hands the whole of `rows` out batch by batch, as a client does that
    /// follows the cursor until there is none, and returns the rows of all
    /// batches put together: the rows that went in, in their order. No
    /// query is live afterwards that was not live before.
    pub fn fetch_all(&mut self, rows: Vec<T>, fetch_size: FetchSize) -> (r: Result<
        Vec<T>,
        QueryExecutionFail,
    >)
        ensures
            match r {
                Ok(all) => fetch_size.effective() <= MAX_FETCH_SIZE && all@ == rows@,
                Err(e) => fetch_size.effective() > MAX_FETCH_SIZE && e
                    == QueryExecutionFail::FetchSizeTooBig && *final(self) == *old(self),
            },
            forall|q: int| final(self).live(q) == old(self).live(q),
    {
        let size = fetch_size.get();
        let first = match self.start(rows, fetch_size) {
            Ok(first) => first,
            Err(e) => {
                return Err(e);
            },
        };
        let Batch { rows: batch, remaining_items, continue_cursor } = first;
        let mut all = batch;
        let mut next = continue_cursor;
        proof {
            lemma_batches_partition(rows@, size as nat);
        }
        loop
            invariant
                size > 0,
                fetch_size.effective() <= MAX_FETCH_SIZE,
                match next {
                    Some(cursor) => {
                        &&& self.live(cursor.query as int) is Some
                        &&& self.live(cursor.query as int)->0.position == cursor.position
                        &&& self.live(cursor.query as int)->0.fetch_size == size
                        &&& all@ + self.live(cursor.query as int)->0.rest == rows@
                        &&& old(self).live(cursor.query as int) is None
                        &&& forall|q: int| q != cursor.query ==> self.live(q) == old(self).live(q)
                    },
                    None => all@ == rows@ && forall|q: int| self.live(q) == old(self).live(q),
                },
            decreases
                    match next {
                        Some(cursor) => self.live(cursor.query as int)->0.rest.len() + 1,
                        None => 0,
                    },
        {
            let cursor = match next {
                Some(cursor) => cursor,
                None => {
                    return Ok(all);
                },
            };
            let ghost rest = self.live(cursor.query as int)->0.rest;
            proof {
                lemma_batches_partition(rest, size as nat);
                use_type_invariant(&*self);
            }
            let batch = match self.continue_query(cursor) {
                Ok(batch) => batch,
                Err(e) => vstd::pervasive::unreached(),
            };
            let Batch { rows: mut more, remaining_items, continue_cursor } = batch;
            proof {
                assert(all@ + more@ + later_rows(rest, size as nat) =~= all@ + rest);
                assert(more@.len() > 0);
            }
            all.append(&mut more);
            next = continue_cursor;
        }
    }
}

} // verus!
