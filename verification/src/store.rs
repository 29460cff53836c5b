//! The pool of identities: raw lines, of which some are records.

use vstd::prelude::*;
use vstd::string::*;
use crate::identity::{is_record, lemma_parse_line_some, parse_line, record_of, Identity};
use crate::random::{lemma_arrangement, shuffled_indices};
use crate::text::{lines_of, push_char, split_lines, views, LINE_END};

verus! {

/// A stored text with fewer characters than this holds no identity.
pub const MIN_STORE_LEN: usize = 2;

/// The pool of identities, as the raw lines of the stored text. Lines are only
/// ever added at the end.
#[derive(Clone, Debug, PartialEq, Eq)]
pub struct Store {
    pub lines: Vec<String>,
}

/// Why the pool cannot be used.
#[derive(Clone, Copy, Debug, PartialEq, Eq, Structural)]
pub enum StoreError {
    /// Nothing was ever stored.
    StoreMissing,
    /// The stored text is shorter than [`MIN_STORE_LEN`].
    StoreEmpty,
    /// No stored line is a record.
    NoValidIdentity,
}

impl View for Store {
    type V = Seq<Seq<char>>;

    open spec fn view(&self) -> Seq<Seq<char>> {
        views(self.lines@)
    }
}

/// Whether every entry of `order` is the index of a line.
pub open spec fn in_bounds(order: Seq<usize>, n: nat) -> bool {
    forall|k: int| 0 <= k < order.len() ==> #[trigger] order[k] < n
}

/// Whether none of the lines at `order[from..to]` is a record.
pub open spec fn no_record_between(
    lines: Seq<Seq<char>>,
    order: Seq<usize>,
    from: int,
    to: int,
) -> bool {
    forall|q: int| from <= q < to ==> !is_record(#[trigger] lines[order[q] as int])
}

/// Looks through the lines in the given order, from position `from` on, for the
/// first one that is a record. Returns its position in `order` and its identity.
pub fn next_record(lines: &Vec<String>, order: &Vec<usize>, from: usize) -> (r: Option<
    (usize, Identity),
>)
    requires
        from <= order.len(),
        in_bounds(order@, lines.len() as nat),
    ensures
        match r {
            Some((p, id)) => {
                &&& from <= p < order.len()
                &&& parse_line(lines@[order@[p as int] as int]@) == Some(id@)
                &&& no_record_between(views(lines@), order@, from as int, p as int)
            },
            None => no_record_between(views(lines@), order@, from as int, order.len() as int),
        },
{
    let mut p: usize = from;
    while p < order.len()
        invariant
            from <= p <= order.len(),
            in_bounds(order@, lines.len() as nat),
            no_record_between(views(lines@), order@, from as int, p as int),
        decreases order.len() - p,
    {
        let line = &lines[order[p]];
        proof {
            lemma_parse_line_some(line@);
        }
        match Identity::parse(line.as_str()) {
            Ok(id) => {
                return Some((p, id));
            },
            Err(_) => {},
        }
        p += 1;
    }
    None
}

impl Store {
    /// A pool without lines.
    pub fn new() -> (store: Store)
        ensures
            store@ == Seq::<Seq<char>>::empty(),
    {
        let store = Store { lines: Vec::new() };
        assert(store@ =~= Seq::<Seq<char>>::empty());
        store
    }

    /// Reads the pool from the stored text; `None` stands for a text that was
    /// never written.
    pub fn load_all(contents: Option<&str>) -> (r: Result<Store, StoreError>)
        ensures
            match contents {
                None => r == Err::<Store, StoreError>(StoreError::StoreMissing),
                Some(text) => if text@.len() < MIN_STORE_LEN {
                    r == Err::<Store, StoreError>(StoreError::StoreEmpty)
                } else {
                    r is Ok && r->Ok_0@ == lines_of(text@)
                },
            },
    {
        match contents {
            None => Err(StoreError::StoreMissing),
            Some(text) => {
                if text.unicode_len() < MIN_STORE_LEN {
                    Err(StoreError::StoreEmpty)
                } else {
                    Ok(Store { lines: split_lines(text) })
                }
            },
        }
    }

    /// The number of lines, records or not.
    pub fn len(&self) -> (n: usize)
        ensures
            n == self@.len(),
    {
        self.lines.len()
    }

    /// Adds the record of `id` as the last line, and returns the text to write
    /// behind the stored text: that record and a line end.
    pub fn append(&mut self, id: &Identity) -> (written: String)
        ensures
            final(self)@ == old(self)@.push(record_of(id@)),
            written@ == record_of(id@).push(LINE_END),
    {
        let line = id.serialize();
        let mut written = line.clone();
        push_char(&mut written, LINE_END);
        self.lines.push(line);
        assert(self@ =~= old(self)@.push(record_of(id@)));
        written
    }

    /// The identity of the first record in the given order, with the index of its
    /// line.
    pub fn select_in_order(&self, order: &Vec<usize>) -> (r: Result<(usize, Identity), StoreError>)
        requires
            in_bounds(order@, self@.len()),
        ensures
            match r {
                Ok((line, id)) => exists|p: int|
                    {
                        &&& 0 <= p < order.len()
                        &&& #[trigger] order[p] == line
                        &&& parse_line(self@[line as int]) == Some(id@)
                        &&& no_record_between(self@, order@, 0, p)
                    },
                Err(e) => {
                    &&& e == StoreError::NoValidIdentity
                    &&& no_record_between(self@, order@, 0, order.len() as int)
                },
            },
    {
        match next_record(&self.lines, order, 0) {
            Some((p, id)) => Ok((order[p], id)),
            None => Err(StoreError::NoValidIdentity),
        }
    }

    /// An identity picked at random among the records. Lines that are no records
    /// are passed over; if there is no record at all, there is nothing to pick.
    pub fn select_random(&self) -> (r: Result<Identity, StoreError>)
        ensures
            match r {
                Ok(id) => exists|i: int|
                    0 <= i < self@.len() && is_record(self@[i]) && #[trigger] parse_line(self@[i])
                        == Some(id@),
                Err(e) => {
                    &&& e == StoreError::NoValidIdentity
                    &&& forall|i: int| 0 <= i < self@.len() ==> !is_record(#[trigger] self@[i])
                },
            },
    {
        let order = shuffled_indices(self.lines.len());
        proof {
            lemma_arrangement(order@, self@.len());
        }
        match self.select_in_order(&order) {
            Ok((line, id)) => {
                proof {
                    lemma_parse_line_some(self@[line as int]);
                }
                Ok(id)
            },
            Err(e) => {
                assert forall|i: int| 0 <= i < self@.len() implies !is_record(
                    #[trigger] self@[i],
                ) by {
                    assert(order@.contains(i as usize));
                    let q = choose|q: int| 0 <= q < order@.len() && order@[q] == i as usize;
                    assert(!is_record(self@[order@[q] as int]));
                }
                Err(e)
            },
        }
    }
}

} // verus!
