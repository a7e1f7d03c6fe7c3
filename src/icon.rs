use vstd::prelude::*;

verus! {

// ---------------------------------------------------------------------------
// The icon cache: one entry per window class, written once
// ---------------------------------------------------------------------------

/// The entry recorded for `key`: the first one written.
pub open spec fn cached<H>(s: Seq<(Seq<char>, Option<H>)>, key: Seq<char>) -> Option<Option<H>>
    decreases s.len(),
{
    if s.len() == 0 {
        None
    } else {
        match cached(s.drop_last(), key) {
            Some(e) => Some(e),
            None => if s.last().0 == key {
                Some(s.last().1)
            } else {
                None
            },
        }
    }
}

/// The entries after recording `entry` for `key`: an entry already there stays.
pub open spec fn record<H>(s: Seq<(Seq<char>, Option<H>)>, key: Seq<char>, entry: Option<H>) -> Seq<
    (Seq<char>, Option<H>),
> {
    if cached(s, key) is Some {
        s
    } else {
        s.push((key, entry))
    }
}

proof fn lemma_cached_prefix<H>(s: Seq<(Seq<char>, Option<H>)>, n: int, key: Seq<char>)
    requires
        0 <= n <= s.len(),
        cached(s.take(n), key) is Some,
    ensures
        cached(s, key) == cached(s.take(n), key),
    decreases s.len() - n,
{
    if n < s.len() {
        assert(s.take(n + 1).drop_last() == s.take(n));
        lemma_cached_prefix(s, n + 1, key);
    } else {
        assert(s.take(n) == s);
    }
}

/// Once an entry is recorded for a class, every later lookup finds that entry,
/// and recording another entry for it changes nothing; other classes are
/// untouched.
pub proof fn lemma_cache_write_once<H>(
    s: Seq<(Seq<char>, Option<H>)>,
    key: Seq<char>,
    entry: Option<H>,
    other: Option<H>,
)
    ensures
        cached(record(s, key, entry), key) == Some(
            match cached(s, key) {
                Some(e) => e,
                None => entry,
            },
        ),
        record(record(s, key, entry), key, other) == record(s, key, entry),
        forall|k: Seq<char>| k != key ==> cached(record(s, key, entry), k) == cached(s, k),
{
    let t = record(s, key, entry);
    if cached(s, key) is None {
        assert(t.drop_last() == s);
    }
    assert forall|k: Seq<char>| k != key implies cached(t, k) == cached(s, k) by {
        if cached(s, key) is None {
            assert(t.drop_last() == s);
        }
    }
}

/// Icons already looked up, by the raw window class; `None` records that no
/// icon was found.
pub struct IconCache<H> {
    entries: Vec<(String, Option<H>)>,
}

pub open spec fn entry_views<H>(v: Seq<(String, Option<H>)>) -> Seq<(Seq<char>, Option<H>)> {
    v.map_values(|e: (String, Option<H>)| (e.0@, e.1))
}

impl<H> View for IconCache<H> {
    type V = Seq<(Seq<char>, Option<H>)>;

    closed spec fn view(&self) -> Seq<(Seq<char>, Option<H>)> {
        entry_views(self.entries@)
    }
}

impl<H> IconCache<H> {
    pub fn new() -> (c: IconCache<H>)
        ensures
            c@.len() == 0,
    {
        let c = IconCache { entries: Vec::new() };
        assert(entry_views(c.entries@).len() == 0);
        c
    }

    /// The entry recorded for `class`, if one was.
    pub fn get(&self, class: &str) -> (r: Option<&Option<H>>)
        ensures
            match (r, cached(self@, class@)) {
                (Some(e), Some(x)) => *e == x,
                (None, None) => true,
                _ => false,
            },
    {
        let key = String::from_str(class);
        let ghost s = self@;
        let mut i: usize = 0;
        while i < self.entries.len()
            invariant
                s == entry_views(self.entries@),
                key@ == class@,
                i <= self.entries@.len(),
                cached(s.take(i as int), class@) is None,
            decreases self.entries@.len() - i,
        {
            assert(s.take(i + 1).drop_last() == s.take(i as int));
            if self.entries[i].0 == key {
                proof {
                    lemma_cached_prefix(s, i + 1, class@);
                }
                return Some(&self.entries[i].1);
            }
            i = i + 1;
        }
        assert(s.take(i as int) == s);
        None
    }

    /// Records `entry` for `class`, unless an entry is already recorded.
    pub fn insert(&mut self, class: &str, entry: Option<H>)
        ensures
            final(self)@ == record(old(self)@, class@, entry),
    {
        let known = self.get(class).is_some();
        if !known {
            let e = (String::from_str(class), entry);
            let ghost v = (e.0@, e.1);
            proof {
                assert(entry_views(self.entries@.push(e)) == entry_views(self.entries@).push(v));
            }
            self.entries.push(e);
        }
    }

    /// Drops every entry, releasing the icons.
    pub fn clear(&mut self)
        ensures
            final(self)@.len() == 0,
    {
        self.entries.clear();
        assert(entry_views(self.entries@).len() == 0);
    }

    /// Number of classes recorded.
    pub fn len(&self) -> (r: usize)
        ensures
            r == self@.len(),
    {
        self.entries.len()
    }
}

} // verus!
