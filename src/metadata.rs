use vstd::prelude::*;

verus! {

/// Kind of an index. Scalar kinds answer predicates on one column; vector
/// kinds answer nearest-neighbour searches.
#[derive(Clone, Copy, PartialEq, Eq, Structural, Debug)]
pub enum IndexType {
    BTree,
    Bitmap,
    LabelList,
    Inverted,
    Vector,
}

impl IndexType {
    pub open spec fn spec_is_scalar(self) -> bool {
        !(self is Vector)
    }

    #[verifier::when_used_as_spec(spec_is_scalar)]
    pub fn is_scalar(self) -> (r: bool)
        ensures
            r == self.spec_is_scalar(),
    {
        !matches!(self, IndexType::Vector)
    }
}

/// One registered index record. Several records that share a `uuid` are the
/// deltas of one logical index, each covering its own fragments.
#[derive(Debug)]
pub struct IndexMetadata {
    pub uuid: u128,
    pub name: String,
    pub columns: Vec<String>,
    pub index_type: IndexType,
    pub dataset_version: u64,
    pub fragments: Vec<u32>,
}

/// Mathematical model of an [`IndexMetadata`].
pub struct IndexView {
    pub uuid: u128,
    pub name: Seq<char>,
    pub columns: Seq<Seq<char>>,
    pub index_type: IndexType,
    pub dataset_version: u64,
    pub fragments: Seq<u32>,
}

pub open spec fn strings_view(v: Seq<String>) -> Seq<Seq<char>> {
    v.map_values(|s: String| s@)
}

pub open spec fn records_view(v: Seq<IndexMetadata>) -> Seq<IndexView> {
    v.map_values(|m: IndexMetadata| m@)
}

impl View for IndexMetadata {
    type V = IndexView;

    open spec fn view(&self) -> IndexView {
        IndexView {
            uuid: self.uuid,
            name: self.name@,
            columns: strings_view(self.columns@),
            index_type: self.index_type,
            dataset_version: self.dataset_version,
            fragments: self.fragments@,
        }
    }
}

/// Copies a list of strings.
pub fn copy_strings(v: &Vec<String>) -> (r: Vec<String>)
    ensures
        strings_view(r@) == strings_view(v@),
{
    let mut out: Vec<String> = Vec::new();
    let mut i: usize = 0;
    while i < v.len()
        invariant
            i <= v.len(),
            out@.len() == i,
            strings_view(out@) =~= strings_view(v@.take(i as int)),
        decreases v.len() - i,
    {
        let ghost prev = out@;
        let c = v[i].clone();
        out.push(c);
        assert forall|k: int| 0 <= k <= i implies #[trigger] out@[k]@ == v@[k]@ by {
            if k < i {
                assert(strings_view(prev)[k] == strings_view(v@.take(i as int))[k]);
            }
        }
        i = i + 1;
        assert(strings_view(out@) =~= strings_view(v@.take(i as int)));
    }
    assert(v@.take(v.len() as int) =~= v@);
    out
}

/// Copies a list of fragment ids.
pub fn copy_fragments(v: &Vec<u32>) -> (r: Vec<u32>)
    ensures
        r@ == v@,
{
    let mut out: Vec<u32> = Vec::new();
    let mut i: usize = 0;
    while i < v.len()
        invariant
            i <= v.len(),
            out@ =~= v@.take(i as int),
        decreases v.len() - i,
    {
        out.push(v[i]);
        i = i + 1;
    }
    assert(v@.take(v.len() as int) =~= v@);
    out
}

impl IndexMetadata {
    /// A copy of this record.
    pub fn duplicate(&self) -> (r: Self)
        ensures
            r@ == self@,
    {
        IndexMetadata {
            uuid: self.uuid,
            name: self.name.clone(),
            columns: copy_strings(&self.columns),
            index_type: self.index_type,
            dataset_version: self.dataset_version,
            fragments: copy_fragments(&self.fragments),
        }
    }
}

/// Copies a list of records.
pub fn copy_records(v: &Vec<IndexMetadata>) -> (r: Vec<IndexMetadata>)
    ensures
        records_view(r@) == records_view(v@),
{
    let mut out: Vec<IndexMetadata> = Vec::new();
    let mut i: usize = 0;
    while i < v.len()
        invariant
            i <= v.len(),
            out@.len() == i,
            records_view(out@) =~= records_view(v@.take(i as int)),
        decreases v.len() - i,
    {
        let ghost prev = out@;
        let c = v[i].duplicate();
        out.push(c);
        assert forall|k: int| 0 <= k <= i implies #[trigger] out@[k]@ == v@[k]@ by {
            if k < i {
                assert(records_view(prev)[k] == records_view(v@.take(i as int))[k]);
            }
        }
        i = i + 1;
        assert(records_view(out@) =~= records_view(v@.take(i as int)));
    }
    assert(v@.take(v.len() as int) =~= v@);
    out
}

} // verus!
