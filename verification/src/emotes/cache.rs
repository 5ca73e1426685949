//! The emote cache: the emotes used last, by name.

use vstd::prelude::*;
use vstd::string::*;
use crate::text::same_text;

verus! {

/// The cache takes a new emote without pushing one out while it holds no
/// more than this many.
pub const MAX_CACHED_EMOTES: usize = 10;

/// An emote that the cache holds: its name and the text that stands for it.
struct CachedEmote {
    name: String,
    base64: String,
}

/// The emotes used last, the most recent first.
pub struct EmoteCache {
    entries: Vec<CachedEmote>,
}

/// Index of the first entry at or after `from` that is called `name`; the
/// length where there is none.
pub open spec fn index_of_name(
    entries: Seq<(Seq<char>, Seq<char>)>,
    name: Seq<char>,
    from: int,
) -> int
    decreases entries.len() - from,
{
    if 0 <= from < entries.len() && entries[from].0 != name {
        index_of_name(entries, name, from + 1)
    } else {
        from
    }
}

/// The entries after the one at `index` was used: it stands first, the
/// others keep their order.
pub open spec fn touched(entries: Seq<(Seq<char>, Seq<char>)>, index: int) -> Seq<
    (Seq<char>, Seq<char>),
>
    recommends
        0 <= index < entries.len(),
{
    seq![entries[index]] + entries.remove(index)
}

/// The entries after a new one came in: it stands first, and where the
/// cache held more than it keeps, the one used longest ago is gone.
pub open spec fn inserted(
    entries: Seq<(Seq<char>, Seq<char>)>,
    name: Seq<char>,
    base64: Seq<char>,
) -> Seq<(Seq<char>, Seq<char>)> {
    if entries.len() > MAX_CACHED_EMOTES {
        seq![(name, base64)] + entries.drop_last()
    } else {
        seq![(name, base64)] + entries
    }
}

/// No two entries have the same name, and the cache is no larger than it
/// can get.
pub open spec fn cache_wf(entries: Seq<(Seq<char>, Seq<char>)>) -> bool {
    &&& entries.len() <= MAX_CACHED_EMOTES + 1
    &&& forall|i: int, j: int|
        0 <= i < j < entries.len() ==> (#[trigger] entries[i]).0 != (#[trigger] entries[j]).0
}

impl View for EmoteCache {
    type V = Seq<(Seq<char>, Seq<char>)>;

    closed spec fn view(&self) -> Seq<(Seq<char>, Seq<char>)> {
        Seq::new(self.entries@.len(), |i: int| (self.entries@[i].name@, self.entries@[i].base64@))
    }
}

impl Clone for EmoteCache {
    fn clone(&self) -> (copy: EmoteCache)
        ensures
            copy@ == self@,
    {
        let mut entries: Vec<CachedEmote> = Vec::new();
        let mut i: usize = 0;
        while i < self.entries.len()
            invariant
                i <= self.entries.len(),
                entries@.len() == i,
                forall|j: int|
                    0 <= j < i ==> (#[trigger] entries@[j]).name@ == self.entries@[j].name@
                        && entries@[j].base64@ == self.entries@[j].base64@,
            decreases self.entries.len() - i,
        {
            entries.push(
                CachedEmote {
                    name: self.entries[i].name.clone(),
                    base64: self.entries[i].base64.clone(),
                },
            );
            i += 1;
        }
        let copy = EmoteCache { entries };
        assert(copy@ =~= self@);
        copy
    }
}

impl EmoteCache {
    /// An empty cache.
    pub fn new() -> (cache: EmoteCache)
        ensures
            cache@ == Seq::<(Seq<char>, Seq<char>)>::empty(),
            cache_wf(cache@),
    {
        EmoteCache { entries: Vec::new() }
    }

    /// Number of emotes held.
    pub fn len(&self) -> (len: usize)
        ensures
            len == self@.len(),
    {
        self.entries.len()
    }

    /// Index of the entry called `name`, or the length.
    fn find(&self, name: &str) -> (index: usize)
        ensures
            index == index_of_name(self@, name@, 0),
            index <= self@.len(),
            index < self@.len() ==> self@[index as int].0 == name@,
    {
        let mut i: usize = 0;
        while i < self.entries.len()
            invariant
                i <= self.entries.len(),
                index_of_name(self@, name@, 0) == index_of_name(self@, name@, i as int),
            decreases self.entries.len() - i,
        {
            if same_text(self.entries[i].name.as_str(), name) {
                return i;
            }
            i += 1;
        }
        i
    }

    /// Moves the entry at `index` to the front.
    fn touch(&mut self, index: usize)
        requires
            index < old(self)@.len(),
        ensures
            final(self)@ == touched(old(self)@, index as int),
    {
        let entry = self.entries.remove(index);
        self.entries.insert(0, entry);
    }

    /// Looks `name` up. Where the cache holds it, the entry moves to the
    /// front and its text is returned; else nothing changes.
    pub fn get_emote(&mut self, name: &str) -> (found: Option<String>)
        ensures
            ({
                let index = index_of_name(old(self)@, name@, 0);
                if index < old(self)@.len() {
                    &&& found matches Some(base64)
                    &&& base64@ == old(self)@[index].1
                    &&& final(self)@ == touched(old(self)@, index)
                } else {
                    &&& found.is_none()
                    &&& final(self)@ == old(self)@
                }
            }),
            cache_wf(old(self)@) ==> cache_wf(final(self)@),
    {
        let index = self.find(name);
        if index < self.entries.len() {
            let base64 = self.entries[index].base64.clone();
            proof {
                if cache_wf(self@) {
                    lemma_touched_keeps_cache(self@, index as int);
                }
            }
            self.touch(index);
            Some(base64)
        } else {
            None
        }
    }

    /// Takes `name` with its text into the cache. A name that the cache
    /// already holds moves to the front with the text it had. A new one is
    /// put in front, after the entry used longest ago was dropped where
    /// the cache held more than it keeps.
    pub fn cache(&mut self, name: String, base64: String)
        ensures
            ({
                let index = index_of_name(old(self)@, name@, 0);
                if index < old(self)@.len() {
                    final(self)@ == touched(old(self)@, index)
                } else {
                    final(self)@ == inserted(old(self)@, name@, base64@)
                }
            }),
            cache_wf(old(self)@) ==> cache_wf(final(self)@),
    {
        let index = self.find(name.as_str());
        proof {
            if cache_wf(self@) {
                if index < self@.len() {
                    lemma_touched_keeps_cache(self@, index as int);
                } else {
                    lemma_inserted_keeps_cache(self@, name@, base64@);
                }
            }
        }
        if index < self.entries.len() {
            self.touch(index);
        } else {
            if self.entries.len() > MAX_CACHED_EMOTES {
                self.entries.pop();
            }
            self.entries.insert(0, CachedEmote { name, base64 });
            assert(final(self)@ =~= inserted(old(self)@, name@, base64@));
        }
    }
}

/// Using an entry keeps the cache well formed.
pub proof fn lemma_touched_keeps_cache(entries: Seq<(Seq<char>, Seq<char>)>, index: int)
    requires
        cache_wf(entries),
        0 <= index < entries.len(),
    ensures
        cache_wf(touched(entries, index)),
        touched(entries, index).len() == entries.len(),
{
    let after = touched(entries, index);
    assert forall|i: int, j: int| 0 <= i < j < after.len() implies (#[trigger] after[i]).0 != (
    #[trigger] after[j]).0 by {
    }
}

/// Taking in a name that the cache does not hold keeps it well formed, and
/// the cache never holds more than one entry above what it keeps.
pub proof fn lemma_inserted_keeps_cache(
    entries: Seq<(Seq<char>, Seq<char>)>,
    name: Seq<char>,
    base64: Seq<char>,
)
    requires
        cache_wf(entries),
        index_of_name(entries, name, 0) >= entries.len(),
    ensures
        cache_wf(inserted(entries, name, base64)),
{
    let after = inserted(entries, name, base64);
    lemma_absent_name(entries, name, 0);
    assert forall|i: int, j: int| 0 <= i < j < after.len() implies (#[trigger] after[i]).0 != (
    #[trigger] after[j]).0 by {}
}

/// Where the search for a name runs to the end, no entry from the start of
/// the search on has that name.
pub proof fn lemma_absent_name(entries: Seq<(Seq<char>, Seq<char>)>, name: Seq<char>, from: int)
    requires
        0 <= from <= entries.len(),
        index_of_name(entries, name, from) >= entries.len(),
    ensures
        forall|i: int| from <= i < entries.len() ==> (#[trigger] entries[i]).0 != name,
    decreases entries.len() - from,
{
    if from < entries.len() && entries[from].0 != name {
        lemma_absent_name(entries, name, from + 1);
    }
}

} // verus!
