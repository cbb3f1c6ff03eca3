use vstd::prelude::*;

use crate::cache::IndexCache;
use crate::consolidate::{consolidate, first_with_id, id_position, lemma_id_position, merged};
use crate::metadata::{
    copy_fragments, copy_records, copy_strings, records_view, strings_view, IndexMetadata,
    IndexType, IndexView,
};

verus! {

/// Why an index operation failed.
#[derive(Clone, Copy, PartialEq, Eq, Structural, Debug)]
pub enum IndexError {
    /// The named index, id or column is not registered.
    NotFound,
    /// An index of that name exists and was not to be replaced.
    Conflict,
    /// The build request is malformed.
    InvalidParameters,
    /// An existing index with that id covers another column or kind.
    Incompatible,
}

/// What [`IndexManager::index_statistics`] reports of a named index.
#[derive(Clone, Copy, PartialEq, Eq, Structural, Debug)]
pub struct IndexStatistics {
    pub index_type: IndexType,
    pub num_indices: usize,
}

/// The records that carry `name`, in order.
pub open spec fn named(s: Seq<IndexView>, name: Seq<char>) -> Seq<IndexView> {
    s.filter(|m: IndexView| m.name == name)
}

/// The records that do not carry `name`, in order.
pub open spec fn not_named(s: Seq<IndexView>, name: Seq<char>) -> Seq<IndexView> {
    s.filter(|m: IndexView| m.name != name)
}

/// Whether some record carries `name`.
pub open spec fn has_name(s: Seq<IndexView>, name: Seq<char>) -> bool {
    exists|i: int| 0 <= i < s.len() && #[trigger] s[i].name == name
}

/// The hyphenated lower-case text of a 128-bit index id.
pub uninterp spec fn uuid_text(id: u128) -> Seq<char>;

/// Relies on `uuid::Uuid::from_u128` and uuid's `Display`: the text of an id
/// depends on the id alone.
#[verifier::external_body]
fn id_text(id: u128) -> (r: String)
    ensures
        r@ == uuid_text(id),
{
    uuid::Uuid::from_u128(id).to_string()
}

/// Position of the first string of `texts` equal to `target`.
pub fn position_of_text(texts: &Vec<String>, target: &str) -> (r: Option<usize>)
    ensures
        match r {
            Some(k) => k < texts@.len() && texts@[k as int]@ == target@ && forall|j: int|
                0 <= j < k ==> #[trigger] texts@[j]@ != target@,
            None => forall|j: int| 0 <= j < texts@.len() ==> #[trigger] texts@[j]@ != target@,
        },
{
    let t = target.to_owned();
    let mut i: usize = 0;
    while i < texts.len()
        invariant
            i <= texts@.len(),
            t@ == target@,
            forall|j: int| 0 <= j < i ==> #[trigger] texts@[j]@ != target@,
        decreases texts@.len() - i,
    {
        if texts[i] == t {
            return Some(i);
        }
        i = i + 1;
    }
    None
}

/// Columns joined by underscores.
pub open spec fn joined(cols: Seq<Seq<char>>) -> Seq<char>
    decreases cols.len(),
{
    if cols.len() == 0 {
        Seq::empty()
    } else if cols.len() == 1 {
        cols[0]
    } else {
        joined(cols.drop_last()) + seq!['_'] + cols.last()
    }
}

/// The name given to an index built on `cols` when none is supplied.
pub open spec fn default_name(cols: Seq<Seq<char>>) -> Seq<char> {
    joined(cols) + seq!['_', 'i', 'd', 'x']
}

/// The name an index is created under.
pub open spec fn chosen_name(name: Option<String>, cols: Seq<Seq<char>>) -> Seq<char> {
    match name {
        Some(n) => n@,
        None => default_name(cols),
    }
}

/// The default name of an index on `columns`: the columns joined by
/// underscores, then `_idx`.
pub fn default_index_name(columns: &Vec<String>) -> (r: String)
    ensures
        r@ == default_name(strings_view(columns@)),
{
    let ghost cols = strings_view(columns@);
    let mut out = String::new();
    let mut i: usize = 0;
    while i < columns.len()
        invariant
            i <= columns@.len(),
            cols == strings_view(columns@),
            out@ == joined(cols.take(i as int)),
        decreases columns@.len() - i,
    {
        if i > 0 {
            out.append("_");
        }
        out.append(columns[i].as_str());
        proof {
            reveal_strlit("_");
            let c = cols.take(i + 1);
            assert(c.drop_last() =~= cols.take(i as int));
            assert(c.last() == columns@[i as int]@);
            assert(out@ =~= joined(c));
        }
        i = i + 1;
    }
    out.append("_idx");
    proof {
        reveal_strlit("_idx");
        assert(cols.take(columns@.len() as int) =~= cols);
        assert(out@ =~= default_name(cols));
    }
    out
}

/// The record that a create operation registers.
pub open spec fn created_record(
    uuid: u128,
    name: Seq<char>,
    columns: Seq<Seq<char>>,
    index_type: IndexType,
    version: u64,
    fragments: Seq<u32>,
) -> IndexView {
    IndexView { uuid, name, columns, index_type, dataset_version: version, fragments }
}

/// Controls how [`IndexManager::optimize_indices`] consolidates deltas.
#[derive(Clone, Copy, PartialEq, Eq, Structural, Debug)]
pub struct OptimizeOptions {
    /// Zero leaves every delta in place; any other value merges all deltas
    /// of each index.
    pub num_indices_to_merge: usize,
}

/// Loading by a name that no record carries gives no records.
pub proof fn lemma_absent_name_loads_empty(s: Seq<IndexView>, name: Seq<char>)
    requires
        !has_name(s, name),
    ensures
        named(s, name) == Seq::<IndexView>::empty(),
    decreases s.len(),
{
    reveal(Seq::filter);
    if s.len() > 0 {
        assert(!has_name(s.drop_last(), name)) by {
            if has_name(s.drop_last(), name) {
                let i = choose|i: int| 0 <= i < s.drop_last().len() && #[trigger] s.drop_last()[i].name == name;
                assert(s[i].name == name);
            }
        }
        lemma_absent_name_loads_empty(s.drop_last(), name);
        assert(s.last().name != name) by {
            assert(s[s.len() - 1].name != name);
        }
    }
}

/// After the records named `name` are superseded by `m` of that name, loading
/// by that name gives `m` alone.
pub proof fn lemma_replace_supersedes(s: Seq<IndexView>, name: Seq<char>, m: IndexView)
    requires
        m.name == name,
    ensures
        named(not_named(s, name).push(m), name) == seq![m],
{
    let rest = not_named(s, name);
    assert(!has_name(rest, name)) by {
        if has_name(rest, name) {
            let i = choose|i: int| 0 <= i < rest.len() && #[trigger] rest[i].name == name;
            s.lemma_filter_pred(|m: IndexView| m.name != name, i);
        }
    }
    lemma_absent_name_loads_empty(rest, name);
    reveal(Seq::filter);
    assert(rest.push(m).drop_last() =~= rest);
    assert(named(rest.push(m), name) =~= seq![m]);
}

/// The records visible at each version of a dataset, and the operations that
/// create, drop and consolidate them. Every change commits a new version.
pub struct IndexManager {
    version: u64,
    indices: Vec<IndexMetadata>,
    cache: IndexCache,
    history: Ghost<Map<u64, Seq<IndexView>>>,
}

impl IndexManager {
    /// The current dataset version.
    pub closed spec fn version(&self) -> u64 {
        self.version
    }

    /// The records visible at the current version.
    pub closed spec fn indices(&self) -> Seq<IndexView> {
        records_view(self.indices@)
    }

    /// The records that were visible at each version this manager committed.
    pub closed spec fn history(&self) -> Map<u64, Seq<IndexView>> {
        self.history@
    }

    /// The snapshots held in the cache.
    pub closed spec fn cached(&self) -> Map<u64, Seq<IndexView>> {
        self.cache@
    }

    pub closed spec fn wf(&self) -> bool {
        &&& self.cache.wf()
        &&& self.history@.contains_key(self.version)
        &&& self.history@[self.version] == records_view(self.indices@)
        &&& forall|v: u64| #[trigger]
            self.history@.contains_key(v) ==> v <= self.version
        &&& forall|v: u64| #[trigger]
            self.cache@.contains_key(v) ==> self.history@.contains_key(v) && self.cache@[v]
                == self.history@[v]
    }

    /// A dataset handle at `version` whose manifest lists `indices`.
    pub fn new(version: u64, indices: Vec<IndexMetadata>) -> (r: Self)
        ensures
            r.wf(),
            r.version() == version,
            r.indices() == records_view(indices@),
            r.cached() == Map::<u64, Seq<IndexView>>::empty(),
    {
        let ghost snap = records_view(indices@);
        IndexManager {
            version,
            indices,
            cache: IndexCache::new(),
            history: Ghost(Map::empty().insert(version, snap)),
        }
    }

    pub fn current_version(&self) -> (r: u64)
        ensures
            r == self.version(),
    {
        self.version
    }

    /// All records visible at the current version. The first call at a version
    /// stores them in the cache; later calls at that version read the cache.
    pub fn load_indices(&mut self) -> (r: Vec<IndexMetadata>)
        requires
            old(self).wf(),
        ensures
            final(self).wf(),
            final(self).version() == old(self).version(),
            final(self).indices() == old(self).indices(),
            final(self).history() == old(self).history(),
            final(self).cached() == old(self).cached().insert(
                old(self).version(),
                old(self).indices(),
            ),
            records_view(r@) == old(self).indices(),
    {
        match self.cache.get(self.version) {
            Some(snapshot) => {
                assert(self.cache@.insert(self.version, self.indices()) =~= self.cache@);
                snapshot
            },
            None => {
                let snapshot = copy_records(&self.indices);
                self.cache.insert(self.version, copy_records(&snapshot));
                snapshot
            },
        }
    }

    /// Drops the cached snapshots of versions older than the current one.
    pub fn evict_stale_cache(&mut self)
        requires
            old(self).wf(),
        ensures
            final(self).wf(),
            final(self).version() == old(self).version(),
            final(self).indices() == old(self).indices(),
            final(self).history() == old(self).history(),
            final(self).cached() == old(self).cached().restrict(
                Set::new(|v: u64| v >= old(self).version()),
            ),
    {
        self.cache.evict_older_than(self.version);
    }

    /// The records registered under `name`, in order; empty when there is none.
    pub fn load_indices_by_name(&mut self, name: &str) -> (r: Vec<IndexMetadata>)
        requires
            old(self).wf(),
        ensures
            final(self).wf(),
            final(self).version() == old(self).version(),
            final(self).indices() == old(self).indices(),
            final(self).history() == old(self).history(),
            records_view(r@) == named(old(self).indices(), name@),
    {
        let all = self.load_indices();
        let target = name.to_owned();
        let ghost s = records_view(all@);
        let mut out: Vec<IndexMetadata> = Vec::new();
        let mut i: usize = 0;
        while i < all.len()
            invariant
                i <= all@.len(),
                s == records_view(all@),
                target@ == name@,
                records_view(out@) == named(s.take(i as int), name@),
            decreases all@.len() - i,
        {
            let ghost prev = out@;
            if all[i].name == target {
                out.push(all[i].duplicate());
                assert(records_view(out@) =~= records_view(prev).push(s[i as int]));
            }
            proof {
                reveal(Seq::filter);
                assert(s.take(i + 1).drop_last() =~= s.take(i as int));
                assert(s.take(i + 1).last() == s[i as int]);
                assert(target@ == name@);
                assert(all@[i as int]@ == s[i as int]);
                if s[i as int].name == name@ {
                    assert(named(s.take(i + 1), name@) == named(s.take(i as int), name@).push(s[i as int]));
                } else {
                    assert(named(s.take(i + 1), name@) == named(s.take(i as int), name@));
                }
            }
            i = i + 1;
        }
        assert(s.take(all@.len() as int) =~= s);
        out
    }

    /// The first record whose id has the text `uuid`, or `None` when no record
    /// has it.
    pub fn load_index(&mut self, uuid: &str) -> (r: Option<IndexMetadata>)
        requires
            old(self).wf(),
        ensures
            final(self).wf(),
            final(self).version() == old(self).version(),
            final(self).indices() == old(self).indices(),
            final(self).history() == old(self).history(),
            match r {
                Some(m) => exists|i: int|
                    0 <= i < old(self).indices().len() && uuid_text(old(self).indices()[i].uuid)
                        == uuid@ && m@ == old(self).indices()[i] && forall|j: int|
                        0 <= j < i ==> #[trigger] uuid_text(old(self).indices()[j].uuid) != uuid@,
                None => forall|i: int|
                    0 <= i < old(self).indices().len() ==> #[trigger] uuid_text(
                        old(self).indices()[i].uuid,
                    ) != uuid@,
            },
    {
        let all = self.load_indices();
        let ghost s = records_view(all@);
        let mut texts: Vec<String> = Vec::new();
        let mut i: usize = 0;
        while i < all.len()
            invariant
                i <= all@.len(),
                s == records_view(all@),
                texts@.len() == i,
                forall|j: int| 0 <= j < i ==> #[trigger] texts@[j]@ == uuid_text(s[j].uuid),
            decreases all@.len() - i,
        {
            texts.push(id_text(all[i].uuid));
            i = i + 1;
        }
        match position_of_text(&texts, uuid) {
            Some(k) => {
                assert forall|j: int| 0 <= j < k implies #[trigger] uuid_text(s[j].uuid) != uuid@ by {
                    assert(texts@[j]@ == uuid_text(s[j].uuid));
                }
                Some(all[k].duplicate())
            },
            None => {
                assert forall|j: int| 0 <= j < s.len() implies #[trigger] uuid_text(s[j].uuid) != uuid@ by {
                    assert(texts@[j]@ == uuid_text(s[j].uuid));
                }
                None
            },
        }
    }

    /// The first scalar index whose only column is `col`.
    pub fn load_scalar_index_for_column(&mut self, col: &str) -> (r: Option<IndexMetadata>)
        requires
            old(self).wf(),
        ensures
            final(self).wf(),
            final(self).version() == old(self).version(),
            final(self).indices() == old(self).indices(),
            final(self).history() == old(self).history(),
            match r {
                Some(m) => exists|i: int|
                    0 <= i < old(self).indices().len() && is_scalar_on(old(self).indices()[i], col@)
                        && m@ == old(self).indices()[i] && forall|j: int|
                        0 <= j < i ==> !#[trigger] is_scalar_on(old(self).indices()[j], col@),
                None => forall|i: int|
                    0 <= i < old(self).indices().len() ==> !#[trigger] is_scalar_on(
                        old(self).indices()[i],
                        col@,
                    ),
            },
    {
        let all = self.load_indices();
        let target = col.to_owned();
        let ghost s = records_view(all@);
        let mut i: usize = 0;
        while i < all.len()
            invariant
                i <= all@.len(),
                s == records_view(all@),
                target@ == col@,
                s == old(self).indices(),
                self.wf(),
                self.version() == old(self).version(),
                self.indices() == old(self).indices(),
                self.history() == old(self).history(),
                forall|j: int| 0 <= j < i ==> !#[trigger] is_scalar_on(s[j], col@),
            decreases all@.len() - i,
        {
            let m = &all[i];
            if m.index_type.is_scalar() && m.columns.len() == 1 && m.columns[0] == target {
                assert(m@.columns =~= seq![col@]);
                return Some(m.duplicate());
            }
            assert(!is_scalar_on(s[i as int], col@)) by {
                if is_scalar_on(s[i as int], col@) {
                    assert(s[i as int].columns.len() == 1);
                    assert(s[i as int].columns[0] == col@);
                    assert(s[i as int].columns[0] == m.columns@[0]@);
                }
            }
            i = i + 1;
        }
        None
    }

    /// Whether some record carries `name`.
    fn contains_name(&self, name: &String) -> (r: bool)
        requires
            self.wf(),
        ensures
            r == has_name(self.indices(), name@),
    {
        let mut i: usize = 0;
        while i < self.indices.len()
            invariant
                i <= self.indices@.len(),
                forall|j: int| 0 <= j < i ==> #[trigger] self.indices@[j].name@ != name@,
            decreases self.indices@.len() - i,
        {
            if self.indices[i].name == *name {
                assert(self.indices()[i as int].name == name@);
                return true;
            }
            i = i + 1;
        }
        assert forall|j: int| 0 <= j < self.indices().len() implies #[trigger] self.indices()[j].name != name@ by {
            assert(self.indices@[j].name@ != name@);
        }
        false
    }

    /// The current records without those that carry `name`.
    fn without_name(&self, name: &String) -> (r: Vec<IndexMetadata>)
        requires
            self.wf(),
        ensures
            records_view(r@) == not_named(self.indices(), name@),
    {
        let ghost s = self.indices();
        let mut out: Vec<IndexMetadata> = Vec::new();
        let mut i: usize = 0;
        while i < self.indices.len()
            invariant
                i <= self.indices@.len(),
                s == records_view(self.indices@),
                records_view(out@) == not_named(s.take(i as int), name@),
            decreases self.indices@.len() - i,
        {
            let ghost prev = out@;
            if self.indices[i].name != *name {
                out.push(self.indices[i].duplicate());
                assert(records_view(out@) =~= records_view(prev).push(s[i as int]));
            }
            proof {
                reveal(Seq::filter);
                assert(s.take(i + 1).drop_last() =~= s.take(i as int));
                assert(s.take(i + 1).last() == s[i as int]);
                if s[i as int].name != name@ {
                    assert(not_named(s.take(i + 1), name@) == not_named(s.take(i as int), name@).push(s[i as int]));
                } else {
                    assert(not_named(s.take(i + 1), name@) == not_named(s.take(i as int), name@));
                }
            }
            i = i + 1;
        }
        assert(s.take(self.indices@.len() as int) =~= s);
        out
    }

    /// Makes `indices` the records of a new version.
    fn commit(&mut self, indices: Vec<IndexMetadata>)
        requires
            old(self).wf(),
            old(self).version() < u64::MAX,
        ensures
            final(self).wf(),
            final(self).version() == old(self).version() + 1,
            final(self).indices() == records_view(indices@),
            final(self).history() == old(self).history().insert(
                (old(self).version() + 1) as u64,
                records_view(indices@),
            ),
            final(self).cached() == old(self).cached(),
    {
        let ghost snap = records_view(indices@);
        self.version = self.version + 1;
        self.indices = indices;
        self.history = Ghost(self.history@.insert(self.version, snap));
    }

    /// Removes every record registered under `name`, in a new version. Fails
    /// with `NotFound`, changing nothing, when no record carries that name.
    pub fn drop_index(&mut self, name: &str) -> (r: Result<(), IndexError>)
        requires
            old(self).wf(),
            old(self).version() < u64::MAX,
        ensures
            final(self).wf(),
            final(self).cached() == old(self).cached(),
            r is Err <==> !has_name(old(self).indices(), name@),
            match r {
                Ok(()) => {
                    &&& final(self).version() == old(self).version() + 1
                    &&& final(self).indices() == not_named(old(self).indices(), name@)
                    &&& final(self).history() == old(self).history().insert(
                        final(self).version(),
                        final(self).indices(),
                    )
                },
                Err(e) => {
                    &&& e == IndexError::NotFound
                    &&& final(self).version() == old(self).version()
                    &&& final(self).indices() == old(self).indices()
                    &&& final(self).history() == old(self).history()
                },
            },
    {
        let target = name.to_owned();
        if !self.contains_name(&target) {
            return Err(IndexError::NotFound);
        }
        let rest = self.without_name(&target);
        self.commit(rest);
        Ok(())
    }

    /// Registers a new index on `columns` in a new version. The index is named
    /// `name`, or after its columns when no name is given; it covers
    /// `fragments` and is identified by `uuid`. Without columns the request
    /// fails with `InvalidParameters`. When the name is taken the request fails
    /// with `Conflict` unless `replace` is set, in which case every record of
    /// that name is superseded. A failure changes nothing.
    pub fn create_index(
        &mut self,
        columns: &Vec<String>,
        index_type: IndexType,
        name: Option<String>,
        replace: bool,
        uuid: u128,
        fragments: Vec<u32>,
    ) -> (r: Result<(), IndexError>)
        requires
            old(self).wf(),
            old(self).version() < u64::MAX,
        ensures
            final(self).wf(),
            final(self).cached() == old(self).cached(),
            columns@.len() == 0 ==> r == Err::<(), IndexError>(IndexError::InvalidParameters),
            columns@.len() > 0 && has_name(
                old(self).indices(),
                chosen_name(name, strings_view(columns@)),
            ) && !replace ==> r == Err::<(), IndexError>(IndexError::Conflict),
            r is Ok <==> columns@.len() > 0 && (replace || !has_name(
                old(self).indices(),
                chosen_name(name, strings_view(columns@)),
            )),
            match r {
                Ok(()) => {
                    &&& final(self).version() == old(self).version() + 1
                    &&& final(self).indices() == not_named(
                        old(self).indices(),
                        chosen_name(name, strings_view(columns@)),
                    ).push(
                        created_record(
                            uuid,
                            chosen_name(name, strings_view(columns@)),
                            strings_view(columns@),
                            index_type,
                            final(self).version(),
                            fragments@,
                        ),
                    )
                    &&& final(self).history() == old(self).history().insert(
                        final(self).version(),
                        final(self).indices(),
                    )
                },
                Err(_) => {
                    &&& final(self).version() == old(self).version()
                    &&& final(self).indices() == old(self).indices()
                    &&& final(self).history() == old(self).history()
                },
            },
    {
        if columns.len() == 0 {
            return Err(IndexError::InvalidParameters);
        }
        let index_name = match name {
            Some(n) => n,
            None => default_index_name(columns),
        };
        if self.contains_name(&index_name) && !replace {
            return Err(IndexError::Conflict);
        }
        let mut next = self.without_name(&index_name);
        let ghost rest = records_view(next@);
        let record = IndexMetadata {
            uuid,
            name: index_name,
            columns: copy_strings(columns),
            index_type,
            dataset_version: self.version + 1,
            fragments,
        };
        next.push(record);
        assert(records_view(next@) =~= rest.push(record@));
        self.commit(next);
        Ok(())
    }

    /// Statistics of the index registered under `name`: its kind and how many
    /// records (deltas) it has. Fails with `NotFound` when no record carries
    /// that name.
    pub fn index_statistics(&mut self, name: &str) -> (r: Result<IndexStatistics, IndexError>)
        requires
            old(self).wf(),
        ensures
            final(self).wf(),
            final(self).version() == old(self).version(),
            final(self).indices() == old(self).indices(),
            final(self).history() == old(self).history(),
            r is Err <==> named(old(self).indices(), name@).len() == 0,
            match r {
                Ok(st) => {
                    &&& st.num_indices == named(old(self).indices(), name@).len()
                    &&& st.index_type == named(old(self).indices(), name@)[0].index_type
                },
                Err(e) => e == IndexError::NotFound,
            },
    {
        let found = self.load_indices_by_name(name);
        if found.len() == 0 {
            return Err(IndexError::NotFound);
        }
        Ok(IndexStatistics { index_type: found[0].index_type, num_indices: found.len() })
    }

    /// Merges the deltas of each index into its first record, in a new
    /// version, when `options` allows merging and some index has more than one
    /// record; otherwise changes nothing.
    pub fn optimize_indices(&mut self, options: &OptimizeOptions)
        requires
            old(self).wf(),
            old(self).version() < u64::MAX,
        ensures
            final(self).wf(),
            final(self).cached() == old(self).cached(),
            ({
                let c = consolidate(old(self).indices(), (old(self).version() + 1) as u64);
                if options.num_indices_to_merge > 0 && c.len() < old(self).indices().len() {
                    &&& final(self).version() == old(self).version() + 1
                    &&& final(self).indices() == c
                    &&& final(self).history() == old(self).history().insert(
                        final(self).version(),
                        c,
                    )
                } else {
                    &&& final(self).version() == old(self).version()
                    &&& final(self).indices() == old(self).indices()
                    &&& final(self).history() == old(self).history()
                }
            }),
    {
        if options.num_indices_to_merge == 0 {
            return;
        }
        let version = self.version + 1;
        let ghost s = self.indices();
        let mut out: Vec<IndexMetadata> = Vec::new();
        let mut i: usize = 0;
        while i < self.indices.len()
            invariant
                i <= self.indices@.len(),
                s == records_view(self.indices@),
                version == self.version + 1,
                records_view(out@) == consolidate(s.take(i as int), version),
            decreases self.indices@.len() - i,
        {
            let ghost prev = records_view(out@);
            let m = &self.indices[i];
            proof {
                assert(s.take(i + 1).drop_last() =~= s.take(i as int));
                assert(s.take(i + 1).last() == s[i as int]);
            }
            match first_with_id(&out, m.uuid) {
                Some(k) => {
                    proof {
                        lemma_id_position(prev, s[i as int].uuid);
                    }
                    let mut rec = out[k].duplicate();
                    let mut extra = copy_fragments(&m.fragments);
                    rec.fragments.append(&mut extra);
                    rec.dataset_version = version;
                    assert(rec@ == merged(prev[k as int], s[i as int], version));
                    out.set(k, rec);
                    assert(records_view(out@) =~= prev.update(k as int, rec@));
                    assert(id_position(prev, s[i as int].uuid) == Some(k as int));
                    assert(consolidate(s.take(i + 1), version) == prev.update(
                        k as int,
                        merged(prev[k as int], s[i as int], version),
                    ));
                },
                None => {
                    out.push(m.duplicate());
                    assert(records_view(out@) =~= prev.push(s[i as int]));
                    assert(consolidate(s.take(i + 1), version) == prev.push(s[i as int]));
                },
            }
            i = i + 1;
        }
        assert(s.take(self.indices@.len() as int) =~= s);
        if out.len() < self.indices.len() {
            self.commit(out);
        }
    }

    /// Registers under `index_name` an index of kind `index_type` on `column`
    /// whose files were built elsewhere with id `index_id`, covering
    /// `fragments`, in a new version. Fails with `Incompatible` when a record
    /// with that id is of another column or kind, then with `Conflict` when
    /// the name is taken. A failure changes nothing.
    pub fn commit_existing_index(
        &mut self,
        index_name: &str,
        column: &str,
        index_id: u128,
        index_type: IndexType,
        fragments: Vec<u32>,
    ) -> (r: Result<(), IndexError>)
        requires
            old(self).wf(),
            old(self).version() < u64::MAX,
        ensures
            final(self).wf(),
            final(self).cached() == old(self).cached(),
            conflicts_with_id(old(self).indices(), index_id, column@, index_type) ==> r == Err::<
                (),
                IndexError,
            >(IndexError::Incompatible),
            !conflicts_with_id(old(self).indices(), index_id, column@, index_type) && has_name(
                old(self).indices(),
                index_name@,
            ) ==> r == Err::<(), IndexError>(IndexError::Conflict),
            r is Ok <==> !conflicts_with_id(old(self).indices(), index_id, column@, index_type)
                && !has_name(old(self).indices(), index_name@),
            match r {
                Ok(()) => {
                    &&& final(self).version() == old(self).version() + 1
                    &&& final(self).indices() == old(self).indices().push(
                        created_record(
                            index_id,
                            index_name@,
                            seq![column@],
                            index_type,
                            final(self).version(),
                            fragments@,
                        ),
                    )
                    &&& final(self).history() == old(self).history().insert(
                        final(self).version(),
                        final(self).indices(),
                    )
                },
                Err(_) => {
                    &&& final(self).version() == old(self).version()
                    &&& final(self).indices() == old(self).indices()
                    &&& final(self).history() == old(self).history()
                },
            },
    {
        let col = column.to_owned();
        let mut i: usize = 0;
        while i < self.indices.len()
            invariant
                i <= self.indices@.len(),
                col@ == column@,
                self.wf(),
                self.version == old(self).version,
                self.indices@ == old(self).indices@,
                self.history@ == old(self).history@,
                self.cache@ == old(self).cache@,
                forall|j: int|
                    0 <= j < i ==> !(#[trigger] self.indices()[j].uuid == index_id && (
                    self.indices()[j].columns != seq![column@] || self.indices()[j].index_type
                        != index_type)),
            decreases self.indices@.len() - i,
        {
            let m = &self.indices[i];
            if m.uuid == index_id {
                let same = m.index_type == index_type && m.columns.len() == 1 && m.columns[0] == col;
                if !same {
                    assert(self.indices()[i as int].columns != seq![column@]
                        || self.indices()[i as int].index_type != index_type) by {
                        if self.indices()[i as int].columns == seq![column@] {
                            assert(self.indices()[i as int].columns.len() == m.columns@.len());
                            assert(self.indices()[i as int].columns[0] == m.columns@[0]@);
                        }
                    }
                    assert(self.indices()[i as int].uuid == index_id);
                    assert(conflicts_with_id(self.indices(), index_id, column@, index_type));
                    return Err(IndexError::Incompatible);
                }
                assert(self.indices()[i as int].columns =~= seq![column@]);
            }
            i = i + 1;
        }
        let name = index_name.to_owned();
        if self.contains_name(&name) {
            return Err(IndexError::Conflict);
        }
        let mut next = copy_records(&self.indices);
        let mut columns: Vec<String> = Vec::new();
        columns.push(col);
        let record = IndexMetadata {
            uuid: index_id,
            name,
            columns,
            index_type,
            dataset_version: self.version + 1,
            fragments,
        };
        let ghost before = records_view(next@);
        next.push(record);
        assert(record@.columns =~= seq![column@]);
        assert(records_view(next@) =~= before.push(record@));
        self.commit(next);
        Ok(())
    }

    /// Loads the records of the current version into the cache ahead of use.
    /// Fails with `NotFound`, changing nothing, when no record carries `name`.
    pub fn prewarm_index(&mut self, name: &str) -> (r: Result<(), IndexError>)
        requires
            old(self).wf(),
        ensures
            final(self).wf(),
            final(self).version() == old(self).version(),
            final(self).indices() == old(self).indices(),
            final(self).history() == old(self).history(),
            r is Err <==> !has_name(old(self).indices(), name@),
            match r {
                Ok(()) => final(self).cached() == old(self).cached().insert(
                    old(self).version(),
                    old(self).indices(),
                ),
                Err(e) => e == IndexError::NotFound && final(self).cached() == old(self).cached(),
            },
    {
        let target = name.to_owned();
        if !self.contains_name(&target) {
            return Err(IndexError::NotFound);
        }
        let _ = self.load_indices();
        Ok(())
    }
}

/// Whether a record of `s` with id `id` is not an index of kind `kind` on
/// the single column `col`.
pub open spec fn conflicts_with_id(s: Seq<IndexView>, id: u128, col: Seq<char>, kind: IndexType) -> bool {
    exists|i: int|
        0 <= i < s.len() && #[trigger] s[i].uuid == id && (s[i].columns != seq![col]
            || s[i].index_type != kind)
}

/// Whether `m` is a scalar index whose only column is `col`.
pub open spec fn is_scalar_on(m: IndexView, col: Seq<char>) -> bool {
    m.index_type.spec_is_scalar() && m.columns == seq![col]
}

} // verus!
