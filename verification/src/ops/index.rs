//! What is known of the registry index: for each package name asked about,
//! the entry that was fetched, kept for the rest of the run, and the cache
//! validator to send with the next fetch of that name.

use vstd::prelude::*;
use crate::ops::text::{first_place, lemma_first_place, lemma_no_place, same_text, slot_text, texts};

verus! {

/// The entry of a package in the index: the versions published so far.
#[derive(Debug)]
pub struct IndexKrate {
    pub versions: Vec<String>,
}

impl View for IndexKrate {
    type V = Seq<Seq<char>>;

    open spec fn view(&self) -> Seq<Seq<char>> {
        texts(self.versions@)
    }
}

impl Clone for IndexKrate {
    fn clone(&self) -> (copy: Self)
        ensures
            copy@ == self@,
    {
        IndexKrate { versions: crate::config::copy_texts(&self.versions) }
    }
}

/// An entry as texts; `None` says that the index has no such package.
pub open spec fn entry_text(entry: Option<IndexKrate>) -> Option<Seq<Seq<char>>> {
    match entry {
        Some(krate) => Some(krate@),
        None => None,
    }
}

/// Copies an entry.
pub fn copy_entry(entry: &Option<IndexKrate>) -> (copy: Option<IndexKrate>)
    ensures
        entry_text(copy) == entry_text(*entry),
{
    match entry {
        Some(krate) => Some(krate.clone()),
        None => None,
    }
}

/// What a fetch brought back: the cache validator that came with the answer,
/// if one did, and the entry, or `None` where the index has no such package.
#[derive(Debug)]
pub struct Fetched {
    pub etag: Option<String>,
    pub entry: Option<IndexKrate>,
}

/// The answer to a question about the index: known, or in need of a fetch,
/// which is to be made with the cache validator `etag` and handed to
/// [`CratesIoIndex::fetched`] before the question is asked again.
#[derive(Debug)]
pub enum Lookup<T> {
    Known(T),
    Fetch { etag: String },
}

/// One line of the validator table.
#[derive(Debug)]
pub struct Validator {
    pub name: String,
    pub etag: String,
}

/// The table as a map from package name to validator. Of two lines for one
/// name the earlier counts.
pub open spec fn validators(table: Seq<Validator>) -> Map<Seq<char>, Seq<char>>
    decreases table.len(),
{
    if table.len() == 0 {
        Map::empty()
    } else {
        validators(table.drop_first()).insert(table[0].name@, table[0].etag@)
    }
}

/// The validator to send for `name`: the one on record, else the empty text.
pub open spec fn validator_for(known: Map<Seq<char>, Seq<char>>, name: Seq<char>) -> Seq<char> {
    if known.contains_key(name) {
        known[name]
    } else {
        Seq::empty()
    }
}

/// The names of the lines of the table, in order.
pub open spec fn validator_names(table: Seq<Validator>) -> Seq<Seq<char>> {
    Seq::new(table.len(), |i: int| table[i].name@)
}

/// The lines of the table as pairs of name and validator, in order.
pub open spec fn validator_lines(table: Seq<Validator>) -> Seq<(Seq<char>, Seq<char>)> {
    Seq::new(table.len(), |i: int| (table[i].name@, table[i].etag@))
}

/// Whether no two lines of the table bear one name.
pub open spec fn one_line_per_name(table: Seq<Validator>) -> bool {
    forall|i: int, j: int|
        0 <= i < j < table.len() ==> (#[trigger] table[i]).name@ != (#[trigger] table[j]).name@
}

/// The lines of a table once `etag` is put on record for `name`: the first
/// line for that name is rewritten where it stands, and where there is none
/// a line is added at the end. No other line changes.
pub open spec fn recorded(
    lines: Seq<(Seq<char>, Seq<char>)>,
    names: Seq<Seq<char>>,
    name: Seq<char>,
    etag: Seq<char>,
) -> Seq<(Seq<char>, Seq<char>)> {
    match first_place(names, name) {
        Some(i) => lines.update(i, (name, etag)),
        None => lines.push((name, etag)),
    }
}

/// The remote index as far as the plan keeps track of it: the validators
/// received so far.
#[derive(Debug)]
pub struct RemoteIndex {
    pub etags: Vec<Validator>,
}

impl View for RemoteIndex {
    type V = Map<Seq<char>, Seq<char>>;

    open spec fn view(&self) -> Map<Seq<char>, Seq<char>> {
        validators(self.etags@)
    }
}

/// Lines for other names at the head of the table do not count for `name`.
proof fn lemma_validators_skip(table: Seq<Validator>, i: int, name: Seq<char>)
    requires
        0 <= i <= table.len(),
        forall|j: int| 0 <= j < i ==> (#[trigger] table[j]).name@ != name,
    ensures
        validators(table).contains_key(name) == validators(table.skip(i)).contains_key(name),
        validators(table).contains_key(name) ==> validators(table)[name] == validators(
            table.skip(i),
        )[name],
    decreases i,
{
    if i == 0 {
        assert(table.skip(0) =~= table);
    } else {
        assert(table.drop_first().skip(i - 1) =~= table.skip(i));
        assert forall|j: int| 0 <= j < i - 1 implies (#[trigger] table.drop_first()[j]).name@
            != name by {
            assert(table.drop_first()[j] == table[j + 1]);
        }
        lemma_validators_skip(table.drop_first(), i - 1, name);
    }
}

/// Rewriting the line that counts for a name puts the new validator on
/// record for it and leaves the other names alone.
proof fn lemma_validators_update(table: Seq<Validator>, i: int, line: Validator)
    requires
        0 <= i < table.len(),
        table[i].name@ == line.name@,
        forall|j: int| 0 <= j < i ==> (#[trigger] table[j]).name@ != line.name@,
    ensures
        validators(table.update(i, line)) == validators(table).insert(line.name@, line.etag@),
    decreases i,
{
    let updated = table.update(i, line);
    if i == 0 {
        assert(updated.drop_first() =~= table.drop_first());
        assert(validators(updated) =~= validators(table).insert(line.name@, line.etag@));
    } else {
        assert(updated.drop_first() =~= table.drop_first().update(i - 1, line));
        assert forall|j: int| 0 <= j < i - 1 implies (#[trigger] table.drop_first()[j]).name@
            != line.name@ by {
            assert(table.drop_first()[j] == table[j + 1]);
        }
        lemma_validators_update(table.drop_first(), i - 1, line);
        assert(table[0].name@ != line.name@);
        assert(validators(updated) =~= validators(table).insert(line.name@, line.etag@));
    }
}

/// A line added for a name that has none puts its validator on record.
proof fn lemma_validators_push(table: Seq<Validator>, line: Validator)
    requires
        forall|j: int| 0 <= j < table.len() ==> (#[trigger] table[j]).name@ != line.name@,
    ensures
        validators(table.push(line)) == validators(table).insert(line.name@, line.etag@),
    decreases table.len(),
{
    let pushed = table.push(line);
    if table.len() == 0 {
        assert(pushed.drop_first() =~= table);
        assert(validators(pushed) =~= validators(table).insert(line.name@, line.etag@));
    } else {
        assert(pushed.drop_first() =~= table.drop_first().push(line));
        assert forall|j: int| 0 <= j < table.len() - 1 implies (#[trigger] table.drop_first()[j]).name@
            != line.name@ by {
            assert(table.drop_first()[j] == table[j + 1]);
        }
        lemma_validators_push(table.drop_first(), line);
        assert(table[0].name@ != line.name@);
        assert(validators(pushed) =~= validators(table).insert(line.name@, line.etag@));
    }
}

impl RemoteIndex {
    /// The index before anything was fetched: no validator on record.
    pub fn open() -> (index: RemoteIndex)
        ensures
            index@ == Map::<Seq<char>, Seq<char>>::empty(),
            index.etags@.len() == 0,
            one_line_per_name(index.etags@),
    {
        RemoteIndex { etags: Vec::new() }
    }

    /// The line of the table that counts for `name`.
    fn position(&self, name: &str) -> (place: Option<usize>)
        ensures
            match place {
                Some(i) => i < self.etags@.len() && self.etags@[i as int].name@ == name@
                    && self@.contains_key(name@) && self@[name@] == self.etags@[i as int].etag@
                    && first_place(validator_names(self.etags@), name@) == Some(i as int)
                    && forall|j: int| 0 <= j < i ==> (#[trigger] self.etags@[j]).name@ != name@,
                None => !self@.contains_key(name@) && first_place(
                    validator_names(self.etags@),
                    name@,
                ) is None && forall|j: int|
                    0 <= j < self.etags@.len() ==> (#[trigger] self.etags@[j]).name@ != name@,
            },
    {
        let mut i: usize = 0;
        while i < self.etags.len()
            invariant
                i <= self.etags@.len(),
                forall|j: int| 0 <= j < i ==> (#[trigger] self.etags@[j]).name@ != name@,
            decreases self.etags@.len() - i,
        {
            if same_text(self.etags[i].name.as_str(), name) {
                proof {
                    lemma_validators_skip(self.etags@, i as int, name@);
                    assert(self.etags@.skip(i as int)[0] == self.etags@[i as int]);
                    lemma_first_place(validator_names(self.etags@), name@, i as int);
                }
                return Some(i);
            }
            i += 1;
        }
        proof {
            lemma_validators_skip(self.etags@, i as int, name@);
            lemma_no_place(validator_names(self.etags@), name@);
        }
        None
    }

    /// The cache validator to send with a fetch of `name`: the last one
    /// received for that name, or the empty text where none was.
    pub fn etag(&self, name: &str) -> (etag: &str)
        ensures
            etag@ == validator_for(self@, name@),
    {
        match self.position(name) {
            Some(i) => self.etags[i].etag.as_str(),
            None => {
                proof {
                    reveal_strlit("");
                    assert(""@ =~= Seq::<char>::empty());
                }
                ""
            },
        }
    }

    /// Takes in what a fetch of `name` brought back. A validator that came
    /// with it goes on record for the next fetch of that name: the line of
    /// that name is rewritten where it stands, and a name without a line gets
    /// one at the end, so that a table with one line per name stays one.
    /// Without a validator the table stays as it is. The entry is handed on.
    pub fn krate(&mut self, name: &str, response: Fetched) -> (entry: Option<IndexKrate>)
        ensures
            entry == response.entry,
            final(self)@ == match response.etag {
                Some(etag) => old(self)@.insert(name@, etag@),
                None => old(self)@,
            },
            validator_lines(final(self).etags@) == match response.etag {
                Some(etag) => recorded(
                    validator_lines(old(self).etags@),
                    validator_names(old(self).etags@),
                    name@,
                    etag@,
                ),
                None => validator_lines(old(self).etags@),
            },
            one_line_per_name(old(self).etags@) ==> one_line_per_name(final(self).etags@),
    {
        let Fetched { etag, entry } = response;
        match etag {
            Some(etag) => {
                let line = Validator { name: name.to_owned(), etag };
                let ghost before = self.etags@;
                match self.position(name) {
                    Some(i) => {
                        proof {
                            lemma_validators_update(self.etags@, i as int, line);
                        }
                        self.etags.set(i, line);
                        proof {
                            assert(validator_lines(self.etags@) =~= validator_lines(before).update(
                                i as int,
                                (name@, line.etag@),
                            ));
                            if one_line_per_name(before) {
                                assert forall|a: int, b: int|
                                    0 <= a < b < self.etags@.len() implies (#[trigger] self.etags@[a]).name@
                                    != (#[trigger] self.etags@[b]).name@ by {
                                    assert(self.etags@[a].name@ == before[a].name@);
                                    assert(self.etags@[b].name@ == before[b].name@);
                                }
                            }
                        }
                    },
                    None => {
                        proof {
                            lemma_validators_push(self.etags@, line);
                        }
                        self.etags.push(line);
                        proof {
                            assert(validator_lines(self.etags@) =~= validator_lines(before).push(
                                (name@, line.etag@),
                            ));
                            if one_line_per_name(before) {
                                assert forall|a: int, b: int|
                                    0 <= a < b < self.etags@.len() implies (#[trigger] self.etags@[a]).name@
                                    != (#[trigger] self.etags@[b]).name@ by {
                                    assert(self.etags@[a] == before[a]);
                                    if b < before.len() {
                                        assert(self.etags@[b] == before[b]);
                                    }
                                }
                            }
                        }
                    },
                }
            },
            None => {},
        }
        entry
    }
}

/// One line of the cache.
#[derive(Debug)]
pub struct Cached {
    pub name: String,
    pub entry: Option<IndexKrate>,
}

/// The cache as a map from package name to entry. Of two lines for one name
/// the later counts.
pub open spec fn cache_map(lines: Seq<Cached>) -> Map<Seq<char>, Option<Seq<Seq<char>>>>
    decreases lines.len(),
{
    if lines.len() == 0 {
        Map::empty()
    } else {
        cache_map(lines.drop_last()).insert(lines.last().name@, entry_text(lines.last().entry))
    }
}

/// Whether no two lines of the cache bear one name.
pub open spec fn one_entry_per_name(lines: Seq<Cached>) -> bool {
    forall|i: int, j: int|
        0 <= i < j < lines.len() ==> (#[trigger] lines[i]).name@ != (#[trigger] lines[j]).name@
}

/// Lines for other names at the end of the cache do not count for `name`.
proof fn lemma_cache_take(lines: Seq<Cached>, k: int, name: Seq<char>)
    requires
        0 <= k <= lines.len(),
        forall|j: int| k <= j < lines.len() ==> (#[trigger] lines[j]).name@ != name,
    ensures
        cache_map(lines).contains_key(name) == cache_map(lines.take(k)).contains_key(name),
        cache_map(lines).contains_key(name) ==> cache_map(lines)[name] == cache_map(lines.take(k))[name],
    decreases lines.len(),
{
    if k == lines.len() {
        assert(lines.take(k) =~= lines);
    } else {
        assert(lines.drop_last().take(k) =~= lines.take(k));
        lemma_cache_take(lines.drop_last(), k, name);
    }
}

/// Whether a question about `name` cannot be answered without a fetch: the
/// default registry is asked, and the cache has nothing on the name.
pub open spec fn needs_fetch(
    cache: Map<Seq<char>, Option<Seq<Seq<char>>>>,
    registry: Option<Seq<char>>,
    name: Seq<char>,
) -> bool {
    registry is None && !cache.contains_key(name)
}

/// What is known of a package without a fetch: nothing of a package in
/// another registry than the default one, else what the cache holds.
pub open spec fn known_entry(
    cache: Map<Seq<char>, Option<Seq<Seq<char>>>>,
    registry: Option<Seq<char>>,
    name: Seq<char>,
) -> Option<Seq<Seq<char>>> {
    if registry is Some {
        None
    } else {
        cache[name]
    }
}

/// The index of the default registry as one run sees it.
#[derive(Debug)]
pub struct CratesIoIndex {
    pub index: Option<RemoteIndex>,
    pub cache: Vec<Cached>,
}

impl View for CratesIoIndex {
    type V = Map<Seq<char>, Option<Seq<Seq<char>>>>;

    open spec fn view(&self) -> Map<Seq<char>, Option<Seq<Seq<char>>>> {
        cache_map(self.cache@)
    }
}

impl CratesIoIndex {
    /// The validators on record; none while the remote index was not opened.
    pub open spec fn etags(&self) -> Map<Seq<char>, Seq<char>> {
        match self.index {
            Some(index) => index@,
            None => Map::empty(),
        }
    }

    /// Whether the cache and the table of validators each hold one line per
    /// name at most.
    pub open spec fn tidy(&self) -> bool {
        &&& one_entry_per_name(self.cache@)
        &&& match self.index {
            Some(index) => one_line_per_name(index.etags@),
            None => true,
        }
    }

    /// An index of which nothing is known yet.
    pub fn new() -> (index: CratesIoIndex)
        ensures
            index@ == Map::<Seq<char>, Option<Seq<Seq<char>>>>::empty(),
            index.etags() == Map::<Seq<char>, Seq<char>>::empty(),
            index.tidy(),
    {
        CratesIoIndex { index: None, cache: Vec::new() }
    }

    /// The line of the cache that counts for `name`.
    fn position(&self, name: &str) -> (place: Option<usize>)
        ensures
            match place {
                Some(i) => i < self.cache@.len() && self@.contains_key(name@) && self@[name@]
                    == entry_text(self.cache@[i as int].entry),
                None => !self@.contains_key(name@),
            },
    {
        let mut k: usize = self.cache.len();
        while k > 0
            invariant
                k <= self.cache@.len(),
                forall|j: int| k <= j < self.cache@.len() ==> (#[trigger] self.cache@[j]).name@ != name@,
            decreases k,
        {
            if same_text(self.cache[k - 1].name.as_str(), name) {
                proof {
                    lemma_cache_take(self.cache@, k as int, name@);
                    assert(self.cache@.take(k as int).last() == self.cache@[k - 1]);
                }
                return Some(k - 1);
            }
            k -= 1;
        }
        proof {
            lemma_cache_take(self.cache@, 0, name@);
        }
        None
    }

    /// Looks a package up. Of a package in another registry than the default
    /// one nothing is known, and nothing is fetched. A name that was fetched
    /// before is answered from the cache. For any other name a fetch is asked
    /// for, with the validator on record for it.
    pub fn krate(&mut self, registry: Option<&str>, name: &str) -> (found: Lookup<
        Option<IndexKrate>,
    >)
        ensures
            final(self)@ == old(self)@,
            final(self).cache == old(self).cache,
            final(self).etags() == old(self).etags(),
            old(self).tidy() ==> final(self).tidy(),
            match found {
                Lookup::Known(entry) => !needs_fetch(old(self)@, slot_text(registry), name@)
                    && entry_text(entry) == known_entry(old(self)@, slot_text(registry), name@),
                Lookup::Fetch { etag } => needs_fetch(old(self)@, slot_text(registry), name@) && etag@
                    == validator_for(old(self).etags(), name@),
            },
    {
        if registry.is_some() {
            return Lookup::Known(None);
        }
        match self.position(name) {
            Some(i) => {
                return Lookup::Known(copy_entry(&self.cache[i].entry));
            },
            None => {},
        }
        if self.index.is_none() {
            self.index = Some(RemoteIndex::open());
        }
        let etag = match &self.index {
            Some(index) => index.etag(name).to_owned(),
            None => String::new(),
        };
        Lookup::Fetch { etag }
    }

    /// Takes the lines for `name` out of the cache.
    fn forget(&mut self, name: &str)
        ensures
            final(self).index == old(self).index,
            final(self)@ == old(self)@.remove(name@),
            forall|j: int| 0 <= j < final(self).cache@.len() ==> (#[trigger] final(self).cache@[j]).name@
                != name@,
            one_entry_per_name(old(self).cache@) ==> one_entry_per_name(final(self).cache@),
    {
        let mut kept: Vec<Cached> = Vec::new();
        let ghost mut from: Seq<int> = Seq::empty();
        let mut i: usize = 0;
        assert(cache_map(kept@) =~= cache_map(self.cache@.take(0)).remove(name@));
        while i < self.cache.len()
            invariant
                i <= self.cache@.len(),
                *self == *old(self),
                cache_map(kept@) == cache_map(self.cache@.take(i as int)).remove(name@),
                from.len() == kept@.len(),
                forall|a: int|
                    0 <= a < kept@.len() ==> 0 <= (#[trigger] from[a]) < i && kept@[a].name@
                        == self.cache@[from[a]].name@ && kept@[a].name@ != name@,
                forall|a: int, b: int| 0 <= a < b < from.len() ==> (#[trigger] from[a]) < (#[trigger] from[b]),
            decreases self.cache@.len() - i,
        {
            proof {
                assert(self.cache@.take(i + 1).drop_last() =~= self.cache@.take(i as int));
                assert(self.cache@.take(i + 1).last() == self.cache@[i as int]);
            }
            if !same_text(self.cache[i].name.as_str(), name) {
                let ghost before = kept@;
                kept.push(
                    Cached {
                        name: self.cache[i].name.clone(),
                        entry: copy_entry(&self.cache[i].entry),
                    },
                );
                proof {
                    from = from.push(i as int);
                    assert(kept@.drop_last() =~= before);
                    assert forall|a: int| 0 <= a < kept@.len() implies 0 <= (#[trigger] from[a]) < i + 1
                        && kept@[a].name@ == self.cache@[from[a]].name@ && kept@[a].name@ != name@ by {
                        if a < before.len() {
                            assert(kept@[a] == before[a]);
                        }
                    }
                }
            }
            assert(cache_map(kept@) =~= cache_map(self.cache@.take(i + 1)).remove(name@));
            i += 1;
        }
        assert(self.cache@.take(i as int) =~= self.cache@);
        proof {
            assert forall|j: int| 0 <= j < kept@.len() implies (#[trigger] kept@[j]).name@ != name@ by {
                assert(0 <= from[j]);
            }
            if one_entry_per_name(self.cache@) {
                assert forall|a: int, b: int| 0 <= a < b < kept@.len() implies (#[trigger] kept@[a]).name@
                    != (#[trigger] kept@[b]).name@ by {
                    assert(from[a] < from[b]);
                    assert(self.cache@[from[a]].name@ != self.cache@[from[b]].name@);
                }
            }
        }
        self.cache = kept;
    }

    /// Takes in what a fetch of `name` brought back: the validator goes on
    /// record, the entry into the cache, in place of what the cache held for
    /// the name. There it stays until [`CratesIoIndex::update_krate`] is
    /// called for the name.
    pub fn fetched(&mut self, name: &str, response: Fetched) -> (entry: Option<IndexKrate>)
        ensures
            entry_text(entry) == entry_text(response.entry),
            final(self)@ == old(self)@.insert(name@, entry_text(response.entry)),
            final(self).etags() == match response.etag {
                Some(etag) => old(self).etags().insert(name@, etag@),
                None => old(self).etags(),
            },
            old(self).tidy() ==> final(self).tidy(),
    {
        if self.index.is_none() {
            self.index = Some(RemoteIndex::open());
        }
        let mut index = match self.index.take() {
            Some(index) => index,
            None => RemoteIndex::open(),
        };
        let entry = index.krate(name, response);
        self.index = Some(index);
        let copy = copy_entry(&entry);
        self.forget(name);
        let ghost before = self.cache@;
        self.cache.push(Cached { name: name.to_owned(), entry: copy });
        proof {
            assert(self.cache@.drop_last() =~= before);
            assert(self@ =~= old(self)@.insert(name@, entry_text(response.entry)));
            if one_entry_per_name(before) {
                assert forall|a: int, b: int| 0 <= a < b < self.cache@.len() implies (#[trigger] self.cache@[a]).name@
                    != (#[trigger] self.cache@[b]).name@ by {
                    assert(self.cache@[a] == before[a]);
                    if b < before.len() {
                        assert(self.cache@[b] == before[b]);
                    }
                }
            }
        }
        entry
    }

    /// Whether the index has the package.
    pub fn has_krate(&mut self, registry: Option<&str>, name: &str) -> (found: Lookup<bool>)
        ensures
            final(self)@ == old(self)@,
            old(self).tidy() ==> final(self).tidy(),
            final(self).etags() == old(self).etags(),
            match found {
                Lookup::Known(has) => !needs_fetch(old(self)@, slot_text(registry), name@) && has
                    == known_entry(old(self)@, slot_text(registry), name@) is Some,
                Lookup::Fetch { etag } => needs_fetch(old(self)@, slot_text(registry), name@) && etag@
                    == validator_for(old(self).etags(), name@),
            },
    {
        match self.krate(registry, name) {
            Lookup::Known(entry) => Lookup::Known(entry.is_some()),
            Lookup::Fetch { etag } => Lookup::Fetch { etag },
        }
    }

    /// Whether the index has the package in the given version; `None` where
    /// that cannot be told, because nothing is known of the package.
    pub fn has_krate_version(&mut self, registry: Option<&str>, name: &str, version: &str) -> (found:
        Lookup<Option<bool>>)
        ensures
            final(self)@ == old(self)@,
            old(self).tidy() ==> final(self).tidy(),
            final(self).etags() == old(self).etags(),
            match found {
                Lookup::Known(has) => !needs_fetch(old(self)@, slot_text(registry), name@) && has
                    == has_version(known_entry(old(self)@, slot_text(registry), name@), version@),
                Lookup::Fetch { etag } => needs_fetch(old(self)@, slot_text(registry), name@) && etag@
                    == validator_for(old(self).etags(), name@),
            },
    {
        match self.krate(registry, name) {
            Lookup::Known(entry) => Lookup::Known(version_listed(&entry, version)),
            Lookup::Fetch { etag } => Lookup::Fetch { etag },
        }
    }

    /// Forgets what is cached for `name`, so that the next question about it
    /// asks for a fetch. Names in another registry than the default one are
    /// never cached, and nothing happens for them.
    pub fn update_krate(&mut self, registry: Option<&str>, name: &str)
        ensures
            final(self).etags() == old(self).etags(),
            final(self)@ == if registry is Some {
                old(self)@
            } else {
                old(self)@.remove(name@)
            },
            old(self).tidy() ==> final(self).tidy(),
    {
        if registry.is_some() {
            return ;
        }
        self.forget(name);
    }
}

/// Whether an entry lists a version; `None` where there is no entry.
pub open spec fn has_version(entry: Option<Seq<Seq<char>>>, version: Seq<char>) -> Option<bool> {
    match entry {
        Some(versions) => Some(versions.contains(version)),
        None => None,
    }
}

/// Decides [`has_version`].
pub fn version_listed(entry: &Option<IndexKrate>, version: &str) -> (listed: Option<bool>)
    ensures
        listed == has_version(entry_text(*entry), version@),
{
    match entry {
        None => None,
        Some(krate) => {
            let mut i: usize = 0;
            while i < krate.versions.len()
                invariant
                    *entry == Some(*krate),
                    i <= krate.versions@.len(),
                    forall|j: int| 0 <= j < i ==> krate@[j] != version@,
                decreases krate.versions@.len() - i,
            {
                if same_text(krate.versions[i].as_str(), version) {
                    assert(krate@[i as int] == version@);
                    assert(krate@.contains(version@));
                    return Some(true);
                }
                i += 1;
            }
            Some(false)
        },
    }
}

/// Something done to the cache.
pub enum CacheStep {
    /// The entry fetched for a name is stored.
    Store(Seq<char>, Option<Seq<Seq<char>>>),
    /// What is cached for a name is forgotten.
    Invalidate(Seq<char>),
}

/// The cache after a series of steps.
pub open spec fn after_steps(
    cache: Map<Seq<char>, Option<Seq<Seq<char>>>>,
    steps: Seq<CacheStep>,
) -> Map<Seq<char>, Option<Seq<Seq<char>>>>
    decreases steps.len(),
{
    if steps.len() == 0 {
        cache
    } else {
        let before = after_steps(cache, steps.drop_last());
        match steps.last() {
            CacheStep::Store(name, entry) => before.insert(name, entry),
            CacheStep::Invalidate(name) => before.remove(name),
        }
    }
}

/// Once the entry of a name is stored, no question about that name needs a
/// fetch, whatever is stored or forgotten for other names and whatever else
/// is stored for this one, until the name itself is invalidated. After that
/// the next question about it needs a fetch again.
pub proof fn lemma_one_fetch_until_invalidated(
    cache: Map<Seq<char>, Option<Seq<Seq<char>>>>,
    name: Seq<char>,
    entry: Option<Seq<Seq<char>>>,
    steps: Seq<CacheStep>,
)
    requires
        forall|i: int| 0 <= i < steps.len() ==> #[trigger] steps[i] != CacheStep::Invalidate(name),
    ensures
        !needs_fetch(after_steps(cache.insert(name, entry), steps), None, name),
        needs_fetch(after_steps(cache.insert(name, entry), steps).remove(name), None, name),
    decreases steps.len(),
{
    if steps.len() > 0 {
        assert forall|i: int| 0 <= i < steps.len() - 1 implies #[trigger] steps.drop_last()[i]
            != CacheStep::Invalidate(name) by {
            assert(steps.drop_last()[i] == steps[i]);
        }
        lemma_one_fetch_until_invalidated(cache, name, entry, steps.drop_last());
        assert(steps[steps.len() - 1] != CacheStep::Invalidate(name));
    }
}

} // verus!
