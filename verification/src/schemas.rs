//! Column schemas: which columns a run selects for a datatype, their
//! types, and how wide values are represented.

use vstd::prelude::*;
use vstd::string::*;
use crate::datatypes::Datatype;
use crate::error::CollectError;
use crate::textfmt::str_eq;

verus! {

/// The semantic type of one column.
#[derive(Debug, Clone, Copy, PartialEq, Eq, Structural)]
pub enum ColumnType {
    /// A boolean.
    Boolean,
    /// A 32-bit unsigned integer.
    UInt32,
    /// A 64-bit unsigned integer.
    UInt64,
    /// A 256-bit unsigned integer; expands to one output column per
    /// chosen representation.
    UInt256,
    /// A 32-bit signed integer.
    Int32,
    /// A 64-bit signed integer.
    Int64,
    /// A 64-bit float.
    Float64,
    /// A text column.
    Utf8,
    /// A raw byte column.
    Binary,
}

impl ColumnType {
    /// The display name of the type.
    pub open spec fn spec_as_str(self) -> Seq<char> {
        match self {
            ColumnType::Boolean => "bool"@,
            ColumnType::UInt32 => "uint32"@,
            ColumnType::UInt64 => "uint64"@,
            ColumnType::UInt256 => "uint256"@,
            ColumnType::Int32 => "int32"@,
            ColumnType::Int64 => "int64"@,
            ColumnType::Float64 => "float64"@,
            ColumnType::Utf8 => "string"@,
            ColumnType::Binary => "binary"@,
        }
    }

    /// The display name of the type.
    pub fn as_str(&self) -> (r: &'static str)
        ensures
            r@ == self.spec_as_str(),
    {
        match self {
            ColumnType::Boolean => "bool",
            ColumnType::UInt32 => "uint32",
            ColumnType::UInt64 => "uint64",
            ColumnType::UInt256 => "uint256",
            ColumnType::Int32 => "int32",
            ColumnType::Int64 => "int64",
            ColumnType::Float64 => "float64",
            ColumnType::Utf8 => "string",
            ColumnType::Binary => "binary",
        }
    }
}

/// How a 256-bit unsigned column is carried into the output.
#[derive(Debug, Clone, Copy, PartialEq, Eq, Structural)]
pub enum U256Type {
    /// Thirty-two big-endian bytes.
    Binary,
    /// The decimal digits, as text.
    DecimalString,
    /// A 64-bit float approximation.
    F64,
    /// The low 64 bits.
    U64Low,
}

impl U256Type {
    /// The suffix appended to the source column's name.
    pub open spec fn spec_suffix(self) -> Seq<char> {
        match self {
            U256Type::Binary => "_binary"@,
            U256Type::DecimalString => "_string"@,
            U256Type::F64 => "_f64"@,
            U256Type::U64Low => "_u64"@,
        }
    }

    /// The suffix appended to the source column's name.
    pub fn suffix(&self) -> (r: &'static str)
        ensures
            r@ == self.spec_suffix(),
    {
        match self {
            U256Type::Binary => "_binary",
            U256Type::DecimalString => "_string",
            U256Type::F64 => "_f64",
            U256Type::U64Low => "_u64",
        }
    }

    /// The column type of the expanded output column.
    pub fn to_columntype(&self) -> (r: ColumnType)
        ensures
            r == self.spec_to_columntype(),
    {
        match self {
            U256Type::Binary => ColumnType::Binary,
            U256Type::DecimalString => ColumnType::Utf8,
            U256Type::F64 => ColumnType::Float64,
            U256Type::U64Low => ColumnType::UInt64,
        }
    }

    /// The column type of the expanded output column.
    pub open spec fn spec_to_columntype(self) -> ColumnType {
        match self {
            U256Type::Binary => ColumnType::Binary,
            U256Type::DecimalString => ColumnType::Utf8,
            U256Type::F64 => ColumnType::Float64,
            U256Type::U64Low => ColumnType::UInt64,
        }
    }
}

/// How raw byte columns are encoded in the output.
#[derive(Debug, Clone, Copy, PartialEq, Eq, Structural)]
pub enum ColumnEncoding {
    /// Raw bytes.
    Binary,
    /// `0x`-prefixed hexadecimal text.
    Hex,
}

/// The resolved column selection for one datatype within one run.
#[derive(Debug, Clone)]
pub struct Table {
    /// The datatype the table belongs to.
    pub datatype: Datatype,
    /// The selected columns, in order, with their types.
    pub columns: Vec<(String, ColumnType)>,
    /// The columns the sink sorts each file by, if any.
    pub sort_columns: Option<Vec<String>>,
    /// The representations emitted for each 256-bit column.
    pub u256_types: Vec<U256Type>,
    /// The encoding of raw byte columns.
    pub binary_type: ColumnEncoding,
}

/// The names and types of a column list, over character sequences.
pub open spec fn spec_columns_view(columns: Seq<(String, ColumnType)>) -> Seq<
    (Seq<char>, ColumnType),
> {
    Seq::new(columns.len(), |i: int| (columns[i].0@, columns[i].1))
}

impl Table {
    /// The selected column names and types.
    pub open spec fn spec_columns(self) -> Seq<(Seq<char>, ColumnType)> {
        spec_columns_view(self.columns@)
    }

    /// Whether a column of this name is selected.
    pub open spec fn spec_has_column(self, name: Seq<char>) -> bool {
        exists|i: int|
            0 <= i < self.spec_columns().len() && (#[trigger] self.spec_columns()[i]).0 == name
    }

    /// The type of the selected column of this name, if any.
    pub open spec fn spec_column_type(self, name: Seq<char>) -> Option<ColumnType> {
        if self.spec_has_column(name) {
            Some(
                self.spec_columns()[choose|i: int|
                    0 <= i < self.spec_columns().len() && (#[trigger] self.spec_columns()[i]).0
                        == name].1,
            )
        } else {
            None
        }
    }

    /// No column name is selected twice, and no output name is emitted
    /// twice after 256-bit expansion.
    pub open spec fn wf(self) -> bool {
        &&& forall|i: int, j: int|
            0 <= i < j < self.spec_columns().len() ==> (#[trigger] self.spec_columns()[i]).0 != (
            #[trigger] self.spec_columns()[j]).0
        &&& spec_unique(spec_output_names(self))
    }

    /// Whether a column of this name is selected.
    pub fn has_column(&self, name: &str) -> (r: bool)
        ensures
            r == self.spec_has_column(name@),
    {
        let mut i: usize = 0;
        while i < self.columns.len()
            invariant
                i <= self.columns@.len(),
                forall|k: int| 0 <= k < i ==> (#[trigger] self.spec_columns()[k]).0 != name@,
            decreases self.columns@.len() - i,
        {
            if str_eq(self.columns[i].0.as_str(), name) {
                proof {
                    assert(self.spec_columns()[i as int].0 == name@);
                }
                return true;
            }
            i = i + 1;
        }
        false
    }

    /// The type of the selected column of this name, if any.
    pub fn column_type(&self, name: &str) -> (r: Option<ColumnType>)
        requires
            self.wf(),
        ensures
            r == self.spec_column_type(name@),
    {
        let mut i: usize = 0;
        while i < self.columns.len()
            invariant
                self.wf(),
                i <= self.columns@.len(),
                forall|k: int| 0 <= k < i ==> (#[trigger] self.spec_columns()[k]).0 != name@,
            decreases self.columns@.len() - i,
        {
            if str_eq(self.columns[i].0.as_str(), name) {
                proof {
                    assert(self.spec_columns()[i as int].0 == name@);
                    assert(exists|k: int|
                        0 <= k < self.spec_columns().len() && (#[trigger] self.spec_columns()[k]).0
                            == name@);
                    let c = choose|k: int|
                        0 <= k < self.spec_columns().len() && (#[trigger] self.spec_columns()[k]).0
                            == name@;
                    assert(0 <= c < self.spec_columns().len() && self.spec_columns()[c].0 == name@);
                    if c < i as int {
                        assert(self.spec_columns()[c].0 != self.spec_columns()[i as int].0);
                    } else if c > i as int {
                        assert(self.spec_columns()[i as int].0 != self.spec_columns()[c].0);
                    }
                    assert(c == i as int);
                }
                return Some(self.columns[i].1);
            }
            i = i + 1;
        }
        None
    }
}

/// No element of `names` appears twice.
pub open spec fn spec_unique(names: Seq<Seq<char>>) -> bool {
    forall|i: int, j: int| 0 <= i < j < names.len() ==> names[i] != names[j]
}

/// The names of the output columns one selected column emits: the
/// name itself, or one suffixed name per representation for a 256-bit
/// column.
pub open spec fn spec_expand_column(
    name: Seq<char>,
    typ: ColumnType,
    u256_types: Seq<U256Type>,
) -> Seq<Seq<char>>
    decreases u256_types.len(),
{
    if typ is UInt256 {
        if u256_types.len() == 0 {
            Seq::empty()
        } else {
            spec_expand_column(name, typ, u256_types.drop_last()) + seq![
                name + u256_types.last().spec_suffix(),
            ]
        }
    } else {
        seq![name]
    }
}

/// The names of every output column of the table, in order.
pub open spec fn spec_output_names_of(
    columns: Seq<(Seq<char>, ColumnType)>,
    u256_types: Seq<U256Type>,
) -> Seq<Seq<char>>
    decreases columns.len(),
{
    if columns.len() == 0 {
        Seq::empty()
    } else {
        spec_output_names_of(columns.drop_last(), u256_types) + spec_expand_column(
            columns.last().0,
            columns.last().1,
            u256_types,
        )
    }
}

/// The names of every output column of the table, in order.
pub open spec fn spec_output_names(table: Table) -> Seq<Seq<char>> {
    spec_output_names_of(table.spec_columns(), table.u256_types@)
}

/// The full column set a datatype can emit, in order.
pub open spec fn spec_datatype_columns(d: Datatype) -> Seq<(Seq<char>, ColumnType)> {
    match d {
        Datatype::Blocks => seq![
            ("block_number"@, ColumnType::UInt32),
            ("block_hash"@, ColumnType::Binary),
            ("timestamp"@, ColumnType::UInt32),
            ("author"@, ColumnType::Binary),
            ("gas_used"@, ColumnType::UInt64),
            ("extra_data"@, ColumnType::Binary),
            ("base_fee_per_gas"@, ColumnType::UInt64),
            ("chain_id"@, ColumnType::UInt64),
        ],
        Datatype::Transactions => seq![
            ("block_number"@, ColumnType::UInt32),
            ("transaction_index"@, ColumnType::UInt64),
            ("transaction_hash"@, ColumnType::Binary),
            ("nonce"@, ColumnType::UInt64),
            ("from_address"@, ColumnType::Binary),
            ("to_address"@, ColumnType::Binary),
            ("value"@, ColumnType::UInt256),
            ("input"@, ColumnType::Binary),
            ("gas_limit"@, ColumnType::UInt64),
            ("gas_used"@, ColumnType::UInt64),
            ("gas_price"@, ColumnType::UInt64),
            ("transaction_type"@, ColumnType::UInt32),
            ("success"@, ColumnType::Boolean),
            ("chain_id"@, ColumnType::UInt64),
        ],
        Datatype::Logs => seq![
            ("block_number"@, ColumnType::UInt32),
            ("transaction_index"@, ColumnType::UInt32),
            ("log_index"@, ColumnType::UInt32),
            ("transaction_hash"@, ColumnType::Binary),
            ("address"@, ColumnType::Binary),
            ("topic0"@, ColumnType::Binary),
            ("topic1"@, ColumnType::Binary),
            ("topic2"@, ColumnType::Binary),
            ("topic3"@, ColumnType::Binary),
            ("data"@, ColumnType::Binary),
            ("chain_id"@, ColumnType::UInt64),
        ],
        Datatype::BalanceDiffs => seq![
            ("block_number"@, ColumnType::UInt32),
            ("transaction_index"@, ColumnType::UInt64),
            ("transaction_hash"@, ColumnType::Binary),
            ("address"@, ColumnType::Binary),
            ("from_value"@, ColumnType::UInt256),
            ("to_value"@, ColumnType::UInt256),
            ("chain_id"@, ColumnType::UInt64),
        ],
        Datatype::Storages => seq![
            ("block_number"@, ColumnType::UInt32),
            ("address"@, ColumnType::Binary),
            ("slot"@, ColumnType::Binary),
            ("value"@, ColumnType::Binary),
            ("chain_id"@, ColumnType::UInt64),
        ],
        _ => Seq::empty(),
    }
}

/// The full column set a datatype can emit, in order.  Only the
/// datatypes this engine collects declare columns.
pub fn datatype_columns(d: Datatype) -> (r: Vec<(String, ColumnType)>)
    ensures
        spec_columns_view(r@) == spec_datatype_columns(d),
{
    let r: Vec<(String, ColumnType)> = match d {
        Datatype::Blocks => vec![
            (String::from_str("block_number"), ColumnType::UInt32),
            (String::from_str("block_hash"), ColumnType::Binary),
            (String::from_str("timestamp"), ColumnType::UInt32),
            (String::from_str("author"), ColumnType::Binary),
            (String::from_str("gas_used"), ColumnType::UInt64),
            (String::from_str("extra_data"), ColumnType::Binary),
            (String::from_str("base_fee_per_gas"), ColumnType::UInt64),
            (String::from_str("chain_id"), ColumnType::UInt64),
        ],
        Datatype::Transactions => vec![
            (String::from_str("block_number"), ColumnType::UInt32),
            (String::from_str("transaction_index"), ColumnType::UInt64),
            (String::from_str("transaction_hash"), ColumnType::Binary),
            (String::from_str("nonce"), ColumnType::UInt64),
            (String::from_str("from_address"), ColumnType::Binary),
            (String::from_str("to_address"), ColumnType::Binary),
            (String::from_str("value"), ColumnType::UInt256),
            (String::from_str("input"), ColumnType::Binary),
            (String::from_str("gas_limit"), ColumnType::UInt64),
            (String::from_str("gas_used"), ColumnType::UInt64),
            (String::from_str("gas_price"), ColumnType::UInt64),
            (String::from_str("transaction_type"), ColumnType::UInt32),
            (String::from_str("success"), ColumnType::Boolean),
            (String::from_str("chain_id"), ColumnType::UInt64),
        ],
        Datatype::Logs => vec![
            (String::from_str("block_number"), ColumnType::UInt32),
            (String::from_str("transaction_index"), ColumnType::UInt32),
            (String::from_str("log_index"), ColumnType::UInt32),
            (String::from_str("transaction_hash"), ColumnType::Binary),
            (String::from_str("address"), ColumnType::Binary),
            (String::from_str("topic0"), ColumnType::Binary),
            (String::from_str("topic1"), ColumnType::Binary),
            (String::from_str("topic2"), ColumnType::Binary),
            (String::from_str("topic3"), ColumnType::Binary),
            (String::from_str("data"), ColumnType::Binary),
            (String::from_str("chain_id"), ColumnType::UInt64),
        ],
        Datatype::BalanceDiffs => vec![
            (String::from_str("block_number"), ColumnType::UInt32),
            (String::from_str("transaction_index"), ColumnType::UInt64),
            (String::from_str("transaction_hash"), ColumnType::Binary),
            (String::from_str("address"), ColumnType::Binary),
            (String::from_str("from_value"), ColumnType::UInt256),
            (String::from_str("to_value"), ColumnType::UInt256),
            (String::from_str("chain_id"), ColumnType::UInt64),
        ],
        Datatype::Storages => vec![
            (String::from_str("block_number"), ColumnType::UInt32),
            (String::from_str("address"), ColumnType::Binary),
            (String::from_str("slot"), ColumnType::Binary),
            (String::from_str("value"), ColumnType::Binary),
            (String::from_str("chain_id"), ColumnType::UInt64),
        ],
        _ => Vec::new(),
    };
    proof {
        assert(spec_columns_view(r@) =~= spec_datatype_columns(d));
    }
    r
}

/// Whether `list` holds a string equal to `name`.
pub fn list_contains(list: &Vec<String>, name: &str) -> (r: bool)
    ensures
        r == list.deep_view().contains(name@),
{
    let mut i: usize = 0;
    while i < list.len()
        invariant
            i <= list@.len(),
            forall|k: int| 0 <= k < i ==> list.deep_view()[k] != name@,
        decreases list@.len() - i,
    {
        if str_eq(list[i].as_str(), name) {
            proof {
                assert(list.deep_view()[i as int] == name@);
            }
            return true;
        }
        i = i + 1;
    }
    proof {
        assert(forall|k: int| 0 <= k < list.deep_view().len() ==> list.deep_view()[k] != name@);
    }
    false
}

/// Whether every string of `names` is distinct.
pub fn names_unique(names: &Vec<String>) -> (r: bool)
    ensures
        r == spec_unique(names.deep_view()),
{
    let mut i: usize = 0;
    while i < names.len()
        invariant
            i <= names@.len(),
            forall|a: int, b: int| 0 <= a < b < names.deep_view().len() && a < i ==>
                names.deep_view()[a] != names.deep_view()[b],
        decreases names@.len() - i,
    {
        let mut j: usize = i + 1;
        while j < names.len()
            invariant
                i < j <= names@.len(),
                forall|b: int| i < b < j ==> names.deep_view()[i as int] != names.deep_view()[b],
            decreases names@.len() - j,
        {
            if str_eq(names[i].as_str(), names[j].as_str()) {
                proof {
                    assert(names.deep_view()[i as int] == names.deep_view()[j as int]);
                }
                return false;
            }
            j = j + 1;
        }
        i = i + 1;
    }
    true
}

/// Whether a column named `name` survives the include and exclude
/// lists: it must appear in the include list when one is given, and
/// must not appear in the exclude list.
pub open spec fn spec_keep(
    name: Seq<char>,
    inc_list: Option<Seq<Seq<char>>>,
    exc_list: Option<Seq<Seq<char>>>,
) -> bool {
    &&& match inc_list {
        Option::None => true,
        Option::Some(inc) => inc.contains(name),
    }
    &&& match exc_list {
        Option::None => true,
        Option::Some(exc) => !exc.contains(name),
    }
}

/// The columns of `cols` that survive the include and exclude lists,
/// in order.
pub open spec fn spec_select(
    cols: Seq<(Seq<char>, ColumnType)>,
    inc_list: Option<Seq<Seq<char>>>,
    exc_list: Option<Seq<Seq<char>>>,
) -> Seq<(Seq<char>, ColumnType)>
    decreases cols.len(),
{
    if cols.len() == 0 {
        Seq::empty()
    } else {
        spec_select(cols.drop_last(), inc_list, exc_list) + (
        if spec_keep(cols.last().0, inc_list, exc_list) {
            seq![cols.last()]
        } else {
            Seq::empty()
        })
    }
}

/// The view of an optional column-name list.
pub open spec fn spec_name_list(o: Option<Vec<String>>) -> Option<Seq<Seq<char>>> {
    match o {
        Option::None => Option::None,
        Option::Some(v) => Option::Some(v.deep_view()),
    }
}

/// The representations emitted by default for a 256-bit column.
pub open spec fn spec_default_u256_types() -> Seq<U256Type> {
    seq![U256Type::Binary, U256Type::U64Low]
}

impl Datatype {
    /// Resolves the table for this datatype.  The datatype's full
    /// column set is the default subset it advertises; an inclusion
    /// list narrows that set, an exclusion list subtracts from it.
    /// The table sorts by the datatype's default sort, and a 256-bit
    /// column is emitted as raw bytes and as its low 64 bits.  Rejects
    /// a selection whose output names would collide.
    pub fn get_schema(
        &self,
        binary_column_format: &ColumnEncoding,
        include_columns: &Option<Vec<String>>,
        exclude_columns: &Option<Vec<String>>,
    ) -> (r: Result<Table, CollectError>)
        ensures
            ({
                let selection = spec_select(
                    spec_datatype_columns(*self),
                    spec_name_list(*include_columns),
                    spec_name_list(*exclude_columns),
                );
                match r {
                    Ok(t) => {
                        &&& t.datatype == *self
                        &&& t.spec_columns() == selection
                        &&& t.sort_columns matches Some(s) && s.deep_view()
                            == self.spec_default_sort()
                        &&& t.u256_types@ == spec_default_u256_types()
                        &&& t.binary_type == *binary_column_format
                        &&& t.wf()
                    },
                    Err(e) => {
                        &&& e is BadSchema
                        &&& {
                            ||| !spec_unique(
                                Seq::new(selection.len(), |i: int| selection[i].0),
                            )
                            ||| !spec_unique(
                                spec_output_names_of(selection, spec_default_u256_types()),
                            )
                        }
                    },
                }
            }),
    {
        let full = datatype_columns(*self);
        let ghost inc_v = spec_name_list(*include_columns);
        let ghost exc_v = spec_name_list(*exclude_columns);
        let mut cols: Vec<(String, ColumnType)> = Vec::new();
        let mut i: usize = 0;
        proof {
            assert(spec_columns_view(cols@) =~= spec_select(
                spec_columns_view(full@).take(0),
                inc_v,
                exc_v,
            ));
        }
        while i < full.len()
            invariant
                i <= full@.len(),
                spec_columns_view(full@) == spec_datatype_columns(*self),
                inc_v == spec_name_list(*include_columns),
                exc_v == spec_name_list(*exclude_columns),
                spec_columns_view(cols@) == spec_select(
                    spec_columns_view(full@).take(i as int),
                    inc_v,
                    exc_v,
                ),
            decreases full@.len() - i,
        {
            let name: &String = &full[i].0;
            let inc_ok: bool = match include_columns {
                Option::None => true,
                Option::Some(inc) => list_contains(inc, name.as_str()),
            };
            let exc_ok: bool = match exclude_columns {
                Option::None => true,
                Option::Some(exc) => !list_contains(exc, name.as_str()),
            };
            let ghost pre = spec_columns_view(cols@);
            if inc_ok && exc_ok {
                let entry = (full[i].0.clone(), full[i].1);
                cols.push(entry);
                proof {
                    assert(spec_columns_view(cols@) =~= pre + seq![
                        (full@[i as int].0@, full@[i as int].1),
                    ]);
                }
            }
            proof {
                let fv = spec_columns_view(full@);
                assert(fv.take(i + 1).drop_last() =~= fv.take(i as int));
                assert(fv.take(i + 1).last() == fv[i as int]);
                assert(spec_keep(fv[i as int].0, inc_v, exc_v) == (inc_ok && exc_ok));
                if !(inc_ok && exc_ok) {
                    assert(spec_columns_view(cols@) =~= pre + Seq::<(Seq<char>, ColumnType)>::empty());
                }
                assert(spec_columns_view(cols@) =~= spec_select(fv.take(i + 1), inc_v, exc_v));
            }
            i = i + 1;
        }
        proof {
            assert(spec_columns_view(full@).take(full@.len() as int) =~= spec_columns_view(full@));
        }
        let table = Table {
            datatype: *self,
            columns: cols,
            sort_columns: Some(self.default_sort()),
            u256_types: vec![U256Type::Binary, U256Type::U64Low],
            binary_type: *binary_column_format,
        };
        proof {
            assert(table.u256_types@ =~= spec_default_u256_types());
        }
        let mut selected_names: Vec<String> = Vec::new();
        let mut k: usize = 0;
        while k < table.columns.len()
            invariant
                k <= table.columns@.len(),
                selected_names@.len() == k,
                forall|i: int| 0 <= i < k ==> (#[trigger] selected_names@[i])@
                    == table.columns@[i].0@,
            decreases table.columns@.len() - k,
        {
            selected_names.push(table.columns[k].0.clone());
            k = k + 1;
        }
        let outs = output_columns(&table);
        proof {
            assert(selected_names.deep_view() =~= Seq::new(
                table.spec_columns().len(),
                |i: int| table.spec_columns()[i].0,
            ));
        }
        if names_unique(&selected_names) && names_unique(&outs) {
            proof {
                assert forall|a: int, b: int|
                    0 <= a < b < table.spec_columns().len() implies (
                #[trigger] table.spec_columns()[a]).0 != (#[trigger] table.spec_columns()[b]).0 by {
                    assert(selected_names.deep_view()[a] == selected_names@[a]@);
                    assert(selected_names.deep_view()[b] == selected_names@[b]@);
                    assert(selected_names.deep_view()[a] != selected_names.deep_view()[b]);
                }
            }
            Ok(table)
        } else {
            Err(CollectError::BadSchema("selected columns collide".to_owned()))
        }
    }
}

/// The name of every output column of the table, in order: a selected
/// column's own name, or, for a 256-bit column, its name with one
/// suffix per chosen representation.
pub fn output_columns(table: &Table) -> (r: Vec<String>)
    ensures
        r.deep_view() == spec_output_names(*table),
{
    let mut r: Vec<String> = Vec::new();
    let mut i: usize = 0;
    proof {
        assert(r.deep_view() =~= spec_output_names_of(
            table.spec_columns().take(0),
            table.u256_types@,
        ));
    }
    while i < table.columns.len()
        invariant
            i <= table.columns@.len(),
            r.deep_view() == spec_output_names_of(
                table.spec_columns().take(i as int),
                table.u256_types@,
            ),
        decreases table.columns@.len() - i,
    {
        let ghost cols = table.spec_columns();
        let ghost pre = r.deep_view();
        let is_u256 = match table.columns[i].1 {
            ColumnType::UInt256 => true,
            _ => false,
        };
        if is_u256 {
            let mut j: usize = 0;
            proof {
                assert(spec_expand_column(cols[i as int].0, cols[i as int].1, table.u256_types@.take(0))
                    =~= Seq::<Seq<char>>::empty());
                assert(r.deep_view() =~= pre + spec_expand_column(
                    cols[i as int].0,
                    cols[i as int].1,
                    table.u256_types@.take(0),
                ));
            }
            while j < table.u256_types.len()
                invariant
                    i < table.columns@.len(),
                    j <= table.u256_types@.len(),
                    cols == table.spec_columns(),
                    cols[i as int].1 is UInt256,
                    r.deep_view() == pre + spec_expand_column(
                        cols[i as int].0,
                        cols[i as int].1,
                        table.u256_types@.take(j as int),
                    ),
                decreases table.u256_types@.len() - j,
            {
                let ghost mid = r.deep_view();
                let name = table.columns[i].0.clone();
                let out = name.concat(table.u256_types[j].suffix());
                r.push(out);
                proof {
                    let uts = table.u256_types@;
                    assert(uts.take(j + 1).drop_last() =~= uts.take(j as int));
                    assert(uts.take(j + 1).last() == uts[j as int]);
                    assert(r.deep_view() =~= mid + seq![
                        cols[i as int].0 + uts[j as int].spec_suffix(),
                    ]);
                    assert(r.deep_view() =~= pre + spec_expand_column(
                        cols[i as int].0,
                        cols[i as int].1,
                        uts.take(j + 1),
                    ));
                }
                j = j + 1;
            }
            proof {
                assert(table.u256_types@.take(table.u256_types@.len() as int)
                    =~= table.u256_types@);
            }
        } else {
            r.push(table.columns[i].0.clone());
            proof {
                assert(r.deep_view() =~= pre + spec_expand_column(
                    cols[i as int].0,
                    cols[i as int].1,
                    table.u256_types@,
                ));
            }
        }
        proof {
            assert(cols.take(i + 1).drop_last() =~= cols.take(i as int));
            assert(cols.take(i + 1).last() == cols[i as int]);
            assert(r.deep_view() =~= spec_output_names_of(cols.take(i + 1), table.u256_types@));
        }
        i = i + 1;
    }
    proof {
        assert(table.spec_columns().take(table.spec_columns().len() as int)
            =~= table.spec_columns());
    }
    r
}

/// The per-datatype sort columns of a run: the user's sort list when
/// exactly one datatype is selected, else each datatype's default
/// sort.  A custom sort with several datatypes is rejected.
pub fn parse_sort(raw_sort: &Vec<String>, schemas: &Vec<(Datatype, Table)>) -> (r: Result<
    Vec<(Datatype, Vec<String>)>,
    CollectError,
>)
    ensures
        match r {
            Ok(m) => {
                &&& m@.len() == schemas@.len()
                &&& forall|i: int|
                    0 <= i < m@.len() ==> (#[trigger] m@[i]).0 == schemas@[i].0
                &&& if raw_sort@.len() == 0 {
                    forall|i: int|
                        0 <= i < m@.len() ==> (#[trigger] m@[i]).1.deep_view()
                            == schemas@[i].0.spec_default_sort()
                } else {
                    m@.len() == 1 && m@[0].1.deep_view() == raw_sort.deep_view()
                }
            },
            Err(e) => {
                &&& e is BadSchema
                &&& raw_sort@.len() > 0
                &&& schemas@.len() != 1
            },
        },
{
    if raw_sort.len() == 0 {
        let mut m: Vec<(Datatype, Vec<String>)> = Vec::new();
        let mut i: usize = 0;
        while i < schemas.len()
            invariant
                i <= schemas@.len(),
                m@.len() == i,
                forall|k: int| 0 <= k < i ==> (#[trigger] m@[k]).0 == schemas@[k].0,
                forall|k: int|
                    0 <= k < i ==> (#[trigger] m@[k]).1.deep_view()
                        == schemas@[k].0.spec_default_sort(),
            decreases schemas@.len() - i,
        {
            let d = schemas[i].0;
            m.push((d, d.default_sort()));
            i = i + 1;
        }
        Ok(m)
    } else if schemas.len() != 1 {
        Err(CollectError::BadSchema("custom sort requires exactly one datatype".to_owned()))
    } else {
        let mut sort: Vec<String> = Vec::new();
        let mut i: usize = 0;
        while i < raw_sort.len()
            invariant
                i <= raw_sort@.len(),
                sort@.len() == i,
                forall|k: int| 0 <= k < i ==> (#[trigger] sort@[k])@ == raw_sort@[k]@,
            decreases raw_sort@.len() - i,
        {
            sort.push(raw_sort[i].clone());
            i = i + 1;
        }
        proof {
            assert(sort.deep_view() =~= raw_sort.deep_view());
        }
        let d = schemas[0].0;
        let mut m: Vec<(Datatype, Vec<String>)> = Vec::new();
        m.push((d, sort));
        Ok(m)
    }
}

/// The resolved tables of a run, one per requested datatype.
pub type Schemas = Vec<(Datatype, Table)>;

/// The table of the first entry for `d`, if any.
pub open spec fn spec_schemas_get(s: Seq<(Datatype, Table)>, d: Datatype) -> Option<Table>
    decreases s.len(),
{
    if s.len() == 0 {
        Option::None
    } else if s[0].0 == d {
        Option::Some(s[0].1)
    } else {
        spec_schemas_get(s.drop_first(), d)
    }
}

proof fn lemma_schemas_get_skip(s: Seq<(Datatype, Table)>, d: Datatype, i: int)
    requires
        0 <= i <= s.len(),
        forall|k: int| 0 <= k < i ==> (#[trigger] s[k]).0 != d,
    ensures
        spec_schemas_get(s, d) == spec_schemas_get(s.skip(i), d),
    decreases i,
{
    if i > 0 {
        lemma_schemas_get_skip(s, d, i - 1);
        let t = s.skip(i - 1);
        assert(t[0] == s[i - 1]);
        assert(t.drop_first() =~= s.skip(i));
    } else {
        assert(s.skip(0) =~= s);
    }
}

/// Looks up the table resolved for a datatype.
pub fn schemas_get<'a>(schemas: &'a Schemas, d: Datatype) -> (r: Option<&'a Table>)
    ensures
        match r {
            Some(t) => spec_schemas_get(schemas@, d) == Option::Some(*t),
            None => spec_schemas_get(schemas@, d) is None,
        },
{
    let mut i: usize = 0;
    while i < schemas.len()
        invariant
            i <= schemas@.len(),
            forall|k: int| 0 <= k < i ==> (#[trigger] schemas@[k]).0 != d,
        decreases schemas@.len() - i,
    {
        if schemas[i].0 == d {
            proof {
                lemma_schemas_get_skip(schemas@, d, i as int);
                assert(schemas@.skip(i as int)[0] == schemas@[i as int]);
            }
            return Some(&schemas[i].1);
        }
        i = i + 1;
    }
    proof {
        lemma_schemas_get_skip(schemas@, d, schemas@.len() as int);
        assert(schemas@.skip(schemas@.len() as int).len() == 0);
    }
    None
}

} // verus!
