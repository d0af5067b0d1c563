//! Windows of a list of names, whole or cut into pieces of equal length.

use vstd::prelude::*;

verus! {

/// Which window of a list to take, and whether to cut it into pieces.
#[derive(Clone, Copy, Debug, PartialEq, Eq, Structural)]
pub struct Pagination {
    /// Where the window starts; at the start of the list if not given.
    pub offset: Option<usize>,
    /// How many names the window holds at most; all that follow if not given.
    pub limit: Option<usize>,
    /// The length of the pieces; the window stays whole if not given.
    pub split: Option<usize>,
}

/// A window of names.
pub enum Page {
    Whole(Vec<String>),
    Split(Vec<Vec<String>>),
}

impl Pagination {
    /// Where the window starts.
    pub open spec fn start(self) -> int {
        match self.offset {
            Some(offset) => offset as int,
            None => 0,
        }
    }

    /// Where the window ends in a list of `len` names.
    pub open spec fn end(self, len: int) -> int {
        match self.limit {
            Some(limit) => if self.start() + limit < len {
                self.start() + limit
            } else {
                len
            },
            None => len,
        }
    }

    /// Whether a list of `len` names has the window: it starts within the
    /// list, and the pieces, if any are asked for, are not empty.
    pub open spec fn fits(self, len: int) -> bool {
        self.start() <= len && self.split != Some(0usize)
    }

    /// The window of `names`.
    pub open spec fn window<T>(self, names: Seq<T>) -> Seq<T> {
        names.subrange(self.start(), self.end(names.len() as int))
    }
}

/// The list cut into pieces of `size` items; the last piece holds what is
/// left and may be shorter.
pub open spec fn chunks<T>(s: Seq<T>, size: int) -> Seq<Seq<T>>
    decreases s.len(),
{
    if s.len() == 0 || size <= 0 {
        Seq::empty()
    } else if s.len() <= size {
        seq![s]
    } else {
        seq![s.take(size)] + chunks(s.skip(size), size)
    }
}

/// The pieces as sequences.
pub open spec fn piece_views(pieces: Seq<Vec<String>>) -> Seq<Seq<String>> {
    pieces.map_values(|piece: Vec<String>| piece@)
}

/// Whether `page` shows the window that `pagination` takes of `names`.
pub open spec fn shows(page: Page, pagination: Pagination, names: Seq<String>) -> bool {
    match (page, pagination.split) {
        (Page::Whole(window), None) => window@ == pagination.window(names),
        (Page::Split(pieces), Some(size)) => piece_views(pieces@) == chunks(
            pagination.window(names),
            size as int,
        ),
        _ => false,
    }
}

/// Copies of the names from place `from` up to place `to`.
fn copy_range(names: &Vec<String>, from: usize, to: usize) -> (copy: Vec<String>)
    requires
        from <= to <= names.len(),
    ensures
        copy@ == names@.subrange(from as int, to as int),
{
    let mut copy: Vec<String> = Vec::new();
    let mut i: usize = from;
    while i < to
        invariant
            from <= i <= to,
            to <= names.len(),
            copy@ == names@.subrange(from as int, i as int),
        decreases to - i,
    {
        copy.push(names[i].clone());
        assert(copy@ =~= names@.subrange(from as int, i + 1));
        i += 1;
    }
    copy
}

/// The window of `names` that `pagination` takes, whole or in pieces, or
/// `None` where the list has no such window.
pub fn slice_query(pagination: &Pagination, names: &Vec<String>) -> (page: Option<Page>)
    ensures
        match page {
            Some(page) => pagination.fits(names@.len() as int) && shows(page, *pagination, names@),
            None => !pagination.fits(names@.len() as int),
        },
{
    let len = names.len();
    let start: usize = match pagination.offset {
        Some(offset) => offset,
        None => 0,
    };
    if start > len {
        return None;
    }
    let end: usize = match pagination.limit {
        Some(limit) => if limit < len - start {
            start + limit
        } else {
            len
        },
        None => len,
    };
    match pagination.split {
        None => Some(Page::Whole(copy_range(names, start, end))),
        Some(size) => {
            if size == 0 {
                return None;
            }
            let ghost window = pagination.window(names@);
            let mut pieces: Vec<Vec<String>> = Vec::new();
            let mut at: usize = start;
            proof {
                assert(window.skip(0) =~= window);
                assert(piece_views(pieces@) =~= Seq::<Seq<String>>::empty());
            }
            while at < end
                invariant
                    start <= at <= end <= names.len(),
                    size > 0,
                    window == names@.subrange(start as int, end as int),
                    piece_views(pieces@) + chunks(window.skip(at - start), size as int) == chunks(
                        window,
                        size as int,
                    ),
                decreases end - at,
            {
                let next: usize = if size < end - at {
                    at + size
                } else {
                    end
                };
                let piece = copy_range(names, at, next);
                let ghost rest = window.skip(at - start);
                let ghost before = pieces@;
                proof {
                    if size < end - at {
                        assert(rest.take(size as int) =~= piece@);
                        assert(rest.skip(size as int) =~= window.skip(next - start));
                    } else {
                        assert(rest =~= piece@);
                        assert(window.skip(next - start).len() == 0);
                    }
                }
                pieces.push(piece);
                proof {
                    assert(piece_views(pieces@) =~= piece_views(before).push(piece@));
                    assert(piece_views(pieces@) + chunks(window.skip(next - start), size as int)
                        =~= piece_views(before) + chunks(rest, size as int));
                }
                at = next;
            }
            proof {
                assert(chunks(window.skip(at - start), size as int) =~= Seq::<Seq<String>>::empty());
                assert(piece_views(pieces@) + Seq::<Seq<String>>::empty() =~= piece_views(pieces@));
            }
            Some(Page::Split(pieces))
        },
    }
}

} // verus!
