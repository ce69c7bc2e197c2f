//! The comment sidecar: a table of raw comment lines keyed by the
//! structural path of the syntax position that immediately follows the
//! comment.
//!
//! A comment-retaining parse fills the table; a comment-emitting
//! serialize looks paths up and writes the lines back.  Paths address
//! positions structurally (document open, collection open and close,
//! an array index, an object key, end of document), so a structurally
//! altered value simply misses its lookups and the comments are
//! dropped.

use vstd::prelude::*;

verus! {

/// One step of a structural path.
#[derive(Debug, Clone, PartialEq)]
pub enum PathSegment {
    /// The opening of the document.
    Open,
    /// The closing delimiter of the enclosing collection.
    Close,
    /// The end of the document.
    Eof,
    /// The element at this index of the enclosing array.
    Index(usize),
    /// The member with this key of the enclosing object.
    Key(String),
}

/// The model of a path segment.
pub enum SegView {
    Open,
    Close,
    Eof,
    Index(int),
    Key(Seq<char>),
}

impl View for PathSegment {
    type V = SegView;

    open spec fn view(&self) -> SegView {
        match self {
            PathSegment::Open => SegView::Open,
            PathSegment::Close => SegView::Close,
            PathSegment::Eof => SegView::Eof,
            PathSegment::Index(i) => SegView::Index(*i as int),
            PathSegment::Key(k) => SegView::Key(k@),
        }
    }
}

/// The model of a whole path.
pub open spec fn path_view(p: Seq<PathSegment>) -> Seq<SegView> {
    p.map_values(|seg: PathSegment| seg@)
}

/// The model of a list of comment lines.
pub open spec fn lines_view(lines: Seq<String>) -> Seq<Seq<char>> {
    lines.map_values(|line: String| line@)
}

pub fn seg_eq(a: &PathSegment, b: &PathSegment) -> (r: bool)
    ensures
        r == (a@ == b@),
{
    match (a, b) {
        (PathSegment::Open, PathSegment::Open) => true,
        (PathSegment::Close, PathSegment::Close) => true,
        (PathSegment::Eof, PathSegment::Eof) => true,
        (PathSegment::Index(i), PathSegment::Index(j)) => i == j,
        (PathSegment::Key(k), PathSegment::Key(l)) => k.eq(l),
        _ => false,
    }
}

pub fn path_eq(a: &Vec<PathSegment>, b: &Vec<PathSegment>) -> (r: bool)
    ensures
        r == (path_view(a@) == path_view(b@)),
{
    if a.len() != b.len() {
        assert(path_view(a@).len() != path_view(b@).len());
        return false;
    }
    let n = a.len();
    let mut i: usize = 0;
    while i < n
        invariant
            i <= n,
            n == a.len() == b.len(),
            forall|k: int| 0 <= k < i ==> a@[k]@ == b@[k]@,
        decreases n - i,
    {
        if !seg_eq(&a[i], &b[i]) {
            assert(path_view(a@)[i as int] != path_view(b@)[i as int]);
            return false;
        }
        i = i + 1;
    }
    assert(path_view(a@) =~= path_view(b@));
    true
}

/// The table of comments gathered by a comment-retaining parse.
#[derive(Debug, PartialEq)]
pub struct Comments {
    pub entries: Vec<(Vec<PathSegment>, Vec<String>)>,
}

/// Looks `key` up among modeled entries; the first match wins.
pub open spec fn find_spec(
    entries: Seq<(Seq<SegView>, Seq<Seq<char>>)>,
    key: Seq<SegView>,
) -> Option<Seq<Seq<char>>>
    decreases entries.len(),
{
    if entries.len() == 0 {
        None
    } else if entries[0].0 == key {
        Some(entries[0].1)
    } else {
        find_spec(entries.drop_first(), key)
    }
}

impl Comments {
    /// The model of the table: its entries, in insertion order.
    pub open spec fn entries_view(&self) -> Seq<(Seq<SegView>, Seq<Seq<char>>)> {
        self.entries@.map_values(
            |e: (Vec<PathSegment>, Vec<String>)| (path_view(e.0@), lines_view(e.1@)),
        )
    }

    /// The comment lines recorded for `key`, if any.
    pub open spec fn lookup(&self, key: Seq<SegView>) -> Option<Seq<Seq<char>>> {
        find_spec(self.entries_view(), key)
    }

    pub fn new() -> (r: Self)
        ensures
            r.entries_view() == Seq::<(Seq<SegView>, Seq<Seq<char>>)>::empty(),
    {
        let r = Comments { entries: Vec::new() };
        proof {
            assert(r.entries_view() =~= Seq::<(Seq<SegView>, Seq<Seq<char>>)>::empty());
        }
        r
    }

    /// The lines recorded for `path`, if any.
    pub fn get(&self, path: &Vec<PathSegment>) -> (r: Option<&Vec<String>>)
        ensures
            match r {
                Some(lines) => self.lookup(path_view(path@)) == Some(lines_view(lines@)),
                None => self.lookup(path_view(path@)) is None,
            },
{
        let n = self.entries.len();
        let mut i: usize = 0;
        while i < n
            invariant
                i <= n,
                n == self.entries.len(),
                forall|k: int|
                    0 <= k < i ==> self.entries_view()[k].0 != path_view(path@),
            decreases n - i,
        {
            if path_eq(&self.entries[i].0, path) {
                proof {
                    lemma_find_first_hit(self.entries_view(), path_view(path@), i as int);
                }
                return Some(&self.entries[i].1);
            }
            i = i + 1;
        }
        proof {
            lemma_find_no_hit(self.entries_view(), path_view(path@));
        }
        None
    }

    /// Records `lines` for `path`, appending to lines already recorded
    /// for the same path.
    pub fn add(&mut self, path: Vec<PathSegment>, lines: Vec<String>)
        ensures
            final(self).lookup(path_view(path@)) == Some(
                match old(self).lookup(path_view(path@)) {
                    None => lines_view(lines@),
                    Some(prev) => prev + lines_view(lines@),
                },
            ),
    {
        let n = self.entries.len();
        let mut i: usize = 0;
        while i < n
            invariant
                i <= n,
                n == self.entries.len(),
                self.entries == old(self).entries,
                forall|k: int| 0 <= k < i ==> self.entries_view()[k].0 != path_view(path@),
            decreases n - i,
        {
            if path_eq(&self.entries[i].0, &path) {
                let ghost prevec = self.entries@;
                let ghost pre = self.entries_view();
                proof {
                    assert(forall|k: int| 0 <= k < i ==> pre[k].0 != path_view(path@));
                    lemma_find_first_hit(pre, path_view(path@), i as int);
                }
                let ghost prev = pre[i as int].1;
                let mut entry = self.entries.remove(i);
                let mut more = lines;
                entry.1.append(&mut more);
                proof {
                    assert(lines_view(entry.1@) =~= prev + lines_view(lines@));
                }
                self.entries.insert(i, entry);
                proof {
                    assert(self.entries@.len() == prevec.len());
                    assert(forall|k: int|
                        0 <= k < prevec.len() && k != i ==> self.entries@[k] == prevec[k]);
                    assert forall|k: int| 0 <= k < i implies #[trigger] self.entries_view()[k].0
                        != path_view(path@) by {
                        assert(self.entries@[k] == prevec[k]);
                        assert(self.entries_view()[k] == pre[k]);
                        assert(pre[k].0 != path_view(path@));
                    };
                    assert(self.entries_view()[i as int].0 == path_view(path@));
                    lemma_find_first_hit(self.entries_view(), path_view(path@), i as int);
                }
                return ;
            }
            i = i + 1;
        }
        proof {
            lemma_find_no_hit(self.entries_view(), path_view(path@));
        }
        let ghost before = self.entries_view();
        self.entries.push((path, lines));
        proof {
            assert(self.entries_view() =~= before.push(
                (path_view(path@), lines_view(lines@)),
            ));
            lemma_find_first_hit(self.entries_view(), path_view(path@), before.len() as int);
        }
    }
}

proof fn lemma_find_first_hit(
    entries: Seq<(Seq<SegView>, Seq<Seq<char>>)>,
    key: Seq<SegView>,
    i: int,
)
    requires
        0 <= i < entries.len(),
        entries[i].0 == key,
        forall|k: int| 0 <= k < i ==> entries[k].0 != key,
    ensures
        find_spec(entries, key) == Some(entries[i].1),
    decreases i,
{
    if i > 0 {
        lemma_find_first_hit(entries.drop_first(), key, i - 1);
    }
}

proof fn lemma_find_no_hit(entries: Seq<(Seq<SegView>, Seq<Seq<char>>)>, key: Seq<SegView>)
    requires
        forall|k: int| 0 <= k < entries.len() ==> entries[k].0 != key,
    ensures
        find_spec(entries, key) is None,
    decreases entries.len(),
{
    if entries.len() > 0 {
        lemma_find_no_hit(entries.drop_first(), key);
    }
}

} // verus!
