//! Structured data for template prompts: the reference to a data file, the
//! tree that its content parses to, and the context that a template is
//! rendered with.

use vstd::prelude::*;
use vstd::string::StringExecFns;

verus! {

/// A data file and the format to read it in.
#[derive(Debug, Clone, PartialEq, Eq)]
pub enum StructuredData {
    Json(String),
    Toml(String),
}

pub enum StructuredDataView {
    Json(Seq<char>),
    Toml(Seq<char>),
}

impl View for StructuredData {
    type V = StructuredDataView;

    open spec fn view(&self) -> StructuredDataView {
        match self {
            StructuredData::Json(path) => StructuredDataView::Json(path@),
            StructuredData::Toml(path) => StructuredDataView::Toml(path@),
        }
    }
}

impl DeepView for StructuredData {
    type V = StructuredDataView;

    open spec fn deep_view(&self) -> StructuredDataView {
        self@
    }
}

impl StructuredDataView {
    /// The path of the data file.
    pub open spec fn path(self) -> Seq<char> {
        match self {
            StructuredDataView::Json(path) => path,
            StructuredDataView::Toml(path) => path,
        }
    }
}

impl StructuredData {
    /// The path of the data file.
    pub fn path(&self) -> (path: &str)
        ensures
            path@ == self@.path(),
    {
        match self {
            StructuredData::Json(path) => path.as_str(),
            StructuredData::Toml(path) => path.as_str(),
        }
    }
}

/// A parsed data file: the one tree that both formats are read into.
///
/// A number is an integer of either sign, or a double-precision number
/// given by its bits.
#[derive(Debug, PartialEq, Eq)]
pub enum DataValue {
    Null,
    Bool(bool),
    Integer(i64),
    Unsigned(u64),
    Float { bits: u64 },
    Text(String),
    List(Vec<DataValue>),
    /// The entries of a mapping; of two entries with one key the later counts.
    Table(Vec<DataEntry>),
}

/// One entry of a mapping.
#[derive(Debug, PartialEq, Eq)]
pub struct DataEntry {
    pub key: String,
    pub value: DataValue,
}

/// The key under which a root value that is no mapping is put.
pub open spec fn value_key() -> Seq<char> {
    "value"@
}

/// The key under which the positional arguments are put.
pub open spec fn args_key() -> Seq<char> {
    "_args"@
}

/// The mapping that a list of entries stands for.
pub open spec fn table_map(entries: Seq<DataEntry>) -> Map<Seq<char>, DataValue>
    decreases entries.len(),
{
    if entries.len() == 0 {
        Map::empty()
    } else {
        table_map(entries.drop_last()).insert(entries.last().key@, entries.last().value)
    }
}

/// The mapping that the data of a template starts from: the root value
/// itself where it is a mapping, else the root value under [`value_key`].
pub open spec fn data_map(root: DataValue) -> Map<Seq<char>, DataValue> {
    match root {
        DataValue::Table(entries) => table_map(entries@),
        other => Map::empty().insert(value_key(), other),
    }
}

/// Whether `value` is the list of `args`, each as a text.
pub open spec fn lists_args(value: DataValue, args: Seq<String>) -> bool {
    value matches DataValue::List(items) && items@.len() == args.len() && forall|i: int|
        0 <= i < args.len() ==> #[trigger] items@[i] == DataValue::Text(args[i])
}

/// Whether the mapping `context` is the context of a template that is
/// rendered with the data `root` and the arguments `args`: the data, and,
/// where there are arguments, their list under [`args_key`] in place of
/// whatever the data had there.
pub open spec fn is_context_of(
    context: Map<Seq<char>, DataValue>,
    root: DataValue,
    args: Seq<String>,
) -> bool {
    if args.len() == 0 {
        context == data_map(root)
    } else {
        &&& context.dom() == data_map(root).dom().insert(args_key())
        &&& lists_args(context[args_key()], args)
        &&& forall|key: Seq<char>|
            key != args_key() && data_map(root).dom().contains(key) ==> #[trigger] context[key]
                == data_map(root)[key]
    }
}

/// Whether `context` lists the data `root` and then the arguments `args`:
/// the entries of the root mapping, or the one entry that holds the root
/// value under [`value_key`]; and behind them, where there are arguments,
/// the entry that holds their list under [`args_key`].
pub open spec fn lists_context(context: Seq<DataEntry>, root: DataValue, args: Seq<String>) -> bool {
    let data = if args.len() == 0 {
        context
    } else {
        context.drop_last()
    };
    &&& args.len() > 0 ==> context.len() > 0 && context.last().key@ == args_key() && lists_args(
        context.last().value,
        args,
    )
    &&& match root {
        DataValue::Table(entries) => data == entries@,
        other => data.len() == 1 && data[0].key@ == value_key() && data[0].value == other,
    }
}

/// Builds the context that a template is rendered with: the entries of a
/// mapping, of which a later one counts where two have one key.
pub fn template_context(root: DataValue, args: &[String]) -> (context: Vec<DataEntry>)
    ensures
        lists_context(context@, root, args@),
        is_context_of(table_map(context@), root, args@),
{
    let mut context = match root {
        DataValue::Table(entries) => entries,
        other => {
            let mut entries: Vec<DataEntry> = Vec::new();
            entries.push(DataEntry { key: String::from_str("value"), value: other });
            assert(entries@.drop_last() =~= Seq::<DataEntry>::empty());
            assert(table_map(entries@.drop_last()) == Map::<Seq<char>, DataValue>::empty());
            entries
        },
    };
    assert(table_map(context@) == data_map(root));
    if args.len() > 0 {
        let mut items: Vec<DataValue> = Vec::new();
        let mut i: usize = 0;
        while i < args.len()
            invariant
                i <= args@.len(),
                items@.len() == i,
                forall|k: int| 0 <= k < i ==> #[trigger] items@[k] == DataValue::Text(args@[k]),
            decreases args@.len() - i,
        {
            items.push(DataValue::Text(args[i].clone()));
            i += 1;
        }
        let ghost data = context@;
        context.push(DataEntry { key: String::from_str("_args"), value: DataValue::List(items) });
        proof {
            assert(context@.drop_last() =~= data);
            assert(lists_args(context@.last().value, args@));
            let built = table_map(context@);
            assert(built == data_map(root).insert(args_key(), DataValue::List(items)));
            assert(built.dom() =~= data_map(root).dom().insert(args_key()));
        }
    }
    context
}

} // verus!
