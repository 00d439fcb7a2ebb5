//! The descriptor data model: a program's declared interface contract.
//!
//! A descriptor is immutable once loaded. Its input and output tables are
//! kept as ordered lists of `(name, interface)` pairs with unique keys, so
//! that the canonical encoding and its inverse are fully specified.

use vstd::prelude::*;

verus! {

/// How the bytes on one interface's channel are framed. The channel itself
/// never enforces this; it is a contract between producer and consumer.
pub enum DataFormat {
    /// A pure synchronization signal: a single ASCII LF is transferred.
    Tick,
    /// A JSON payload matching the embedded schema document, which is kept
    /// verbatim as canonical JSON text and checked only by convention.
    Json(String),
    /// A constant number, sent once; the channel then closes.
    ConstNumber,
    /// A constant string, sent once; the channel then closes.
    ConstString,
}

/// One declared input or output of a program.
pub struct Interface {
    pub name: String,
    pub data_format: DataFormat,
}

/// A program's declared contract: naming, and its typed inputs and outputs.
pub struct ProgramInfo {
    pub human_name: String,
    pub description: String,
    pub category: String,
    pub inputs: Vec<(String, Interface)>,
    pub outputs: Vec<(String, Interface)>,
}

/// Mathematical model of a `DataFormat`.
#[verifier::ext_equal]
pub enum FormatModel {
    Tick,
    Json { schema: Seq<char> },
    ConstNumber,
    ConstString,
}

/// Mathematical model of an `Interface`.
#[verifier::ext_equal]
pub struct InterfaceModel {
    pub name: Seq<char>,
    pub data_format: FormatModel,
}

/// Mathematical model of a `ProgramInfo`.
#[verifier::ext_equal]
pub struct ProgramModel {
    pub human_name: Seq<char>,
    pub description: Seq<char>,
    pub category: Seq<char>,
    pub inputs: Seq<(Seq<char>, InterfaceModel)>,
    pub outputs: Seq<(Seq<char>, InterfaceModel)>,
}

impl View for DataFormat {
    type V = FormatModel;

    open spec fn view(&self) -> FormatModel {
        match self {
            DataFormat::Tick => FormatModel::Tick,
            DataFormat::Json(s) => FormatModel::Json { schema: s@ },
            DataFormat::ConstNumber => FormatModel::ConstNumber,
            DataFormat::ConstString => FormatModel::ConstString,
        }
    }
}

impl View for Interface {
    type V = InterfaceModel;

    open spec fn view(&self) -> InterfaceModel {
        InterfaceModel { name: self.name@, data_format: self.data_format@ }
    }
}

/// The model of one `(name, interface)` table entry.
pub open spec fn entry_view(e: (String, Interface)) -> (Seq<char>, InterfaceModel) {
    (e.0@, e.1@)
}

/// The model of a whole interface table.
pub open spec fn entries_view(v: Seq<(String, Interface)>) -> Seq<(Seq<char>, InterfaceModel)> {
    v.map_values(|e: (String, Interface)| entry_view(e))
}

impl View for ProgramInfo {
    type V = ProgramModel;

    open spec fn view(&self) -> ProgramModel {
        ProgramModel {
            human_name: self.human_name@,
            description: self.description@,
            category: self.category@,
            inputs: entries_view(self.inputs@),
            outputs: entries_view(self.outputs@),
        }
    }
}

/// The palette-level kind of a data format, with the embedded schema
/// document abstracted away.
#[derive(PartialEq, Eq, Structural, Clone, Copy, Debug)]
pub enum NodeDataType {
    Tick,
    Json,
    ConstNumber,
    ConstString,
}

/// The display label of a kind.
pub open spec fn label_of(k: NodeDataType) -> Seq<char> {
    match k {
        NodeDataType::Tick => "Tick"@,
        NodeDataType::Json => "Json"@,
        NodeDataType::ConstNumber => "ConstNumber"@,
        NodeDataType::ConstString => "ConstString"@,
    }
}

impl NodeDataType {
    /// The kind's display name.
    pub fn label(&self) -> (r: String)
        ensures
            r@ == label_of(*self),
    {
        match self {
            NodeDataType::Tick => "Tick".to_owned(),
            NodeDataType::Json => "Json".to_owned(),
            NodeDataType::ConstNumber => "ConstNumber".to_owned(),
            NodeDataType::ConstString => "ConstString".to_owned(),
        }
    }
}

/// The kind of a format, at the spec level.
pub open spec fn kind_of(f: FormatModel) -> NodeDataType {
    match f {
        FormatModel::Tick => NodeDataType::Tick,
        FormatModel::Json { .. } => NodeDataType::Json,
        FormatModel::ConstNumber => NodeDataType::ConstNumber,
        FormatModel::ConstString => NodeDataType::ConstString,
    }
}

impl DataFormat {
    /// The kind of this format: which of the four framings it declares.
    pub fn kind(&self) -> (r: NodeDataType)
        ensures
            r == kind_of(self@),
    {
        match self {
            DataFormat::Tick => NodeDataType::Tick,
            DataFormat::Json(_) => NodeDataType::Json,
            DataFormat::ConstNumber => NodeDataType::ConstNumber,
            DataFormat::ConstString => NodeDataType::ConstString,
        }
    }
}

impl Clone for DataFormat {
    fn clone(&self) -> (r: Self)
        ensures
            r@ == self@,
    {
        match self {
            DataFormat::Tick => DataFormat::Tick,
            DataFormat::Json(s) => DataFormat::Json(s.clone()),
            DataFormat::ConstNumber => DataFormat::ConstNumber,
            DataFormat::ConstString => DataFormat::ConstString,
        }
    }
}

impl Clone for Interface {
    fn clone(&self) -> (r: Self)
        ensures
            r@ == self@,
    {
        Interface { name: self.name.clone(), data_format: self.data_format.clone() }
    }
}

/// A copy of one interface table whose model is the same.
pub fn clone_entries(v: &Vec<(String, Interface)>) -> (r: Vec<(String, Interface)>)
    ensures
        entries_view(r@) == entries_view(v@),
{
    let mut out: Vec<(String, Interface)> = Vec::new();
    let mut k: usize = 0;
    while k < v.len()
        invariant
            k <= v@.len(),
            entries_view(out@) == entries_view(v@).take(k as int),
        decreases v@.len() - k,
    {
        let ghost prev = out@;
        out.push((v[k].0.clone(), v[k].1.clone()));
        proof {
            assert(entries_view(out@).len() == out@.len());
            assert(entries_view(v@).len() == v@.len());
            assert(entries_view(out@) =~= entries_view(v@).take(k as int + 1)) by {
                assert(entries_view(out@).len() == out@.len());
                assert(entries_view(v@).len() == v@.len());
                assert forall|m: int|
                    0 <= m < out@.len() implies entries_view(out@)[m] == entries_view(v@).take(
                    k as int + 1,
                )[m] by {
                    assert(entries_view(prev).len() == prev.len());
                    assert(prev.len() == k as int);
                    assert(entries_view(out@)[m] == entry_view(out@[m]));
                    if m < k as int {
                        assert(out@[m] == prev[m]);
                        assert(entries_view(prev)[m] == entry_view(prev[m]));
                        assert(entries_view(v@).take(k as int)[m] == entries_view(v@)[m]);
                        assert(entries_view(v@)[m] == entry_view(v@[m]));
                    } else {
                        assert(entries_view(v@)[m] == entry_view(v@[m]));
                    }
                }
            }
        }
        k += 1;
    }
    proof {
        assert(entries_view(v@).take(v@.len() as int) =~= entries_view(v@));
    }
    out
}

impl Clone for ProgramInfo {
    fn clone(&self) -> (r: Self)
        ensures
            r@ == self@,
    {
        let r = ProgramInfo {
            human_name: self.human_name.clone(),
            description: self.description.clone(),
            category: self.category.clone(),
            inputs: clone_entries(&self.inputs),
            outputs: clone_entries(&self.outputs),
        };
        proof {
            assert(r@ =~= self@);
        }
        r
    }
}

/// Keys of an interface table, in order.
pub open spec fn keys_of(entries: Seq<(Seq<char>, InterfaceModel)>) -> Seq<Seq<char>> {
    entries.map_values(|e: (Seq<char>, InterfaceModel)| e.0)
}

/// An interface table is well formed when its keys are pairwise distinct.
pub open spec fn distinct_keys(entries: Seq<(Seq<char>, InterfaceModel)>) -> bool {
    forall|i: int, j: int| 0 <= i < j < entries.len() ==> entries[i].0 != entries[j].0
}

} // verus!
