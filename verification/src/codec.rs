//! The value codec: how dynamic values are bound as parameters, and how the
//! cells of a result are decoded into dynamic values.

use crate::double::{
    double_bits, exactly_representable, integer_value, lemma_integer_bits, magnitude, nearest_bits,
    signed_integer_of,
};
use crate::error::DbError;
use crate::value::{item_views, lemma_array_view, Dynamic, DynamicView, Number};
use vstd::prelude::*;

verus! {

/// A parameter as it is bound to a placeholder of a statement.
#[derive(Clone, Debug, PartialEq, Eq)]
pub enum Param {
    /// SQL NULL.
    Null,
    /// A native boolean.
    Bool(bool),
    /// A text.
    Text(String),
    /// A 64-bit floating-point number, given by its bit pattern.
    Real(u64),
    /// A BLOB.
    Blob(Vec<u8>),
    /// A structured value, left to the engine's generic binding.
    Json(Dynamic),
}

/// A parameter with its texts and bytes as sequences.
pub enum ParamView {
    Null,
    Bool(bool),
    Text(Seq<char>),
    Real(u64),
    Blob(Seq<u8>),
    Json(DynamicView),
}

impl View for Param {
    type V = ParamView;

    open spec fn view(&self) -> ParamView {
        match self {
            Param::Null => ParamView::Null,
            Param::Bool(b) => ParamView::Bool(*b),
            Param::Text(s) => ParamView::Text(s@),
            Param::Real(n) => ParamView::Real(*n),
            Param::Blob(bytes) => ParamView::Blob(bytes@),
            Param::Json(value) => ParamView::Json(value@),
        }
    }
}

/// The storage classes of the engine.
#[derive(Clone, Copy, Debug, PartialEq, Eq, Structural)]
pub enum StorageClass {
    Null,
    Integer,
    Real,
    Text,
    Blob,
}

/// A cell of a result row as the engine holds it. A real is given by the
/// bit pattern of its 64-bit floating-point value.
#[derive(Clone, Debug, PartialEq, Eq)]
pub enum Cell {
    Null,
    Integer(i64),
    Real(u64),
    Text(String),
    Blob(Vec<u8>),
    /// A cell of a type that is none of the storage classes, with the
    /// type's name.
    Unsupported(String),
}

/// A cell with its texts and bytes as sequences.
pub enum CellView {
    Null,
    Integer(i64),
    Real(u64),
    Text(Seq<char>),
    Blob(Seq<u8>),
    Unsupported(Seq<char>),
}

impl View for Cell {
    type V = CellView;

    open spec fn view(&self) -> CellView {
        match self {
            Cell::Null => CellView::Null,
            Cell::Integer(i) => CellView::Integer(*i),
            Cell::Real(bits) => CellView::Real(*bits),
            Cell::Text(s) => CellView::Text(s@),
            Cell::Blob(bytes) => CellView::Blob(bytes@),
            Cell::Unsupported(name) => CellView::Unsupported(name@),
        }
    }
}

/// The unsigned integer that an element is, where it is one.
pub open spec fn unsigned_of(element: DynamicView) -> Option<u64> {
    match element {
        DynamicView::Number(n) => n.unsigned(),
        _ => None,
    }
}

/// True for an element of a byte sequence: an integer that is not
/// negative.
pub open spec fn is_unsigned(element: DynamicView) -> bool {
    unsigned_of(element) is Some
}

/// True for the arrays that are bound as a BLOB: every element is an
/// integer that is not negative.
pub open spec fn is_byte_array(items: Seq<DynamicView>) -> bool {
    forall|i: int| 0 <= i < items.len() ==> is_unsigned(#[trigger] items[i])
}

/// The byte that an element of a byte sequence stands for: the low eight
/// bits of the integer.
pub open spec fn element_byte(element: DynamicView) -> u8 {
    match unsigned_of(element) {
        Some(n) => (n % 256) as u8,
        None => 0,
    }
}

/// How a dynamic value is bound. Null, booleans and texts are bound as
/// what they are; every number, integer or not, as the 64-bit
/// floating-point number nearest to it, so that an integer of more than 53
/// bits may lose its low bits; an array of integers none of which is
/// negative as the BLOB of their low bytes. Any other array, and an object, is left to the
/// engine.
pub open spec fn bind_of(value: DynamicView) -> ParamView {
    match value {
        DynamicView::Null => ParamView::Null,
        DynamicView::Bool(b) => ParamView::Bool(b),
        DynamicView::Text(s) => ParamView::Text(s),
        DynamicView::Number(n) => ParamView::Real(double_bits(n)),
        DynamicView::Array(items) => if is_byte_array(items) {
            ParamView::Blob(Seq::new(items.len(), |i: int| element_byte(items[i])))
        } else {
            ParamView::Json(value)
        },
        DynamicView::Object(_) => ParamView::Json(value),
    }
}

/// The storage class that the engine's name of a type stands for. A null
/// cell is of class `Null` whatever its type is called.
pub open spec fn class_named(is_null: bool, declared: Seq<char>) -> Option<StorageClass> {
    if is_null || declared == "NULL"@ {
        Some(StorageClass::Null)
    } else if declared == "INTEGER"@ {
        Some(StorageClass::Integer)
    } else if declared == "REAL"@ {
        Some(StorageClass::Real)
    } else if declared == "TEXT"@ {
        Some(StorageClass::Text)
    } else if declared == "BLOB"@ {
        Some(StorageClass::Blob)
    } else {
        None
    }
}

/// The number that an integer cell holds.
pub open spec fn integer_number(i: i64) -> Number {
    if i >= 0 {
        Number::PosInt(i as u64)
    } else {
        Number::NegInt(i)
    }
}

/// What a cell decodes to: the dynamic value, or the name of the type that
/// none stands for. A real decodes to the number of its bit pattern,
/// whatever the pattern.
pub open spec fn decode_of(cell: CellView) -> Result<DynamicView, Seq<char>> {
    match cell {
        CellView::Null => Ok(DynamicView::Null),
        CellView::Integer(i) => Ok(DynamicView::Number(integer_number(i))),
        CellView::Real(bits) => Ok(DynamicView::Number(Number::Float(bits))),
        CellView::Text(s) => Ok(DynamicView::Text(s)),
        CellView::Blob(bytes) => Ok(
            DynamicView::Array(
                Seq::new(bytes.len(), |i: int| DynamicView::Number(Number::PosInt(bytes[i] as u64))),
            ),
        ),
        CellView::Unsupported(name) => Err(name),
    }
}

/// The cell in which the engine keeps a bound parameter, in a column
/// without a type of its own: a boolean as the integer 1 or 0, the
/// others in their own storage class. `None` for a structured value, whose
/// cell the engine's generic binding makes.
pub open spec fn stored_cell(param: ParamView) -> Option<CellView> {
    match param {
        ParamView::Null => Some(CellView::Null),
        ParamView::Bool(b) => Some(
            CellView::Integer(
                if b {
                    1
                } else {
                    0
                },
            ),
        ),
        ParamView::Text(s) => Some(CellView::Text(s)),
        ParamView::Real(bits) => Some(CellView::Real(bits)),
        ParamView::Blob(bytes) => Some(CellView::Blob(bytes)),
        ParamView::Json(_) => None,
    }
}

/// True for the arrays that hold bytes: every element is an integer from
/// 0 to 255.
pub open spec fn holds_bytes(items: Seq<DynamicView>) -> bool {
    forall|i: int|
        0 <= i < items.len() ==> (#[trigger] items[i] matches DynamicView::Number(
            Number::PosInt(n),
        ) && n < 256)
}

/// The values that come back as they were bound: null, texts, byte
/// sequences, and floating-point numbers.
pub open spec fn round_trips(value: DynamicView) -> bool {
    match value {
        DynamicView::Null => true,
        DynamicView::Bool(_) => false,
        DynamicView::Text(_) => true,
        DynamicView::Number(Number::Float(_)) => true,
        DynamicView::Number(_) => false,
        DynamicView::Array(items) => holds_bytes(items),
        DynamicView::Object(_) => false,
    }
}

/// Round trip: a value that `round_trips`, bound and decoded from the cell
/// that keeps it, is the value again.
pub proof fn lemma_bind_decode_round_trip(value: DynamicView)
    requires
        round_trips(value),
    ensures
        stored_cell(bind_of(value)) matches Some(cell) && decode_of(cell) == Ok::<
            DynamicView,
            Seq<char>,
        >(value),
{
    match value {
        DynamicView::Array(items) => {
            let bytes = Seq::new(items.len(), |i: int| element_byte(items[i]));
            let back = Seq::new(
                bytes.len(),
                |i: int| DynamicView::Number(Number::PosInt(bytes[i] as u64)),
            );
            assert forall|i: int| 0 <= i < items.len() implies back[i] == items[i]
                && is_unsigned(#[trigger] items[i]) by {
                assert(items[i] matches DynamicView::Number(Number::PosInt(n)) && n < 256);
            }
            assert(is_byte_array(items));
            assert(back =~= items);
        },
        _ => {},
    }
}

/// An integer comes back as a floating-point number: bound and decoded
/// from the cell that keeps it, it is the number nearest to it, and that
/// number is the integer itself where a 64-bit floating-point number
/// represents the integer exactly.
pub proof fn lemma_integer_round_trip(n: Number)
    requires
        n !is Float,
    ensures
        stored_cell(bind_of(DynamicView::Number(n))) matches Some(cell) && decode_of(cell) == Ok::<
            DynamicView,
            Seq<char>,
        >(DynamicView::Number(Number::Float(double_bits(n)))),
        exactly_representable(magnitude(integer_value(n))) ==> signed_integer_of(double_bits(n))
            == Some(integer_value(n)),
{
    lemma_integer_bits(n);
}

/// A boolean does not come back as a boolean: bound and decoded from the
/// cell that keeps it, it is the number 1 or 0.
pub proof fn lemma_bool_decodes_as_number(b: bool)
    ensures
        stored_cell(bind_of(DynamicView::Bool(b))) matches Some(cell) && decode_of(cell) == Ok::<
            DynamicView,
            Seq<char>,
        >(
            DynamicView::Number(
                Number::PosInt(
                    if b {
                        1
                    } else {
                        0
                    },
                ),
            ),
        ),
{
}

/// Binds one dynamic value.
pub fn bind_value(value: Dynamic) -> (param: Param)
    ensures
        param@ == bind_of(value@),
{
    match value {
        Dynamic::Null => Param::Null,
        Dynamic::Bool(b) => Param::Bool(b),
        Dynamic::Text(s) => Param::Text(s),
        Dynamic::Number(n) => Param::Real(nearest_bits(n)),
        Dynamic::Array(items) => {
            proof {
                lemma_array_view(items);
            }
            let mut bytes: Vec<u8> = Vec::new();
            let mut i: usize = 0;
            while i < items.len()
                invariant
                    i <= items@.len(),
                    bytes@.len() == i,
                    value@ == DynamicView::Array(item_views(items@)),
                    value == Dynamic::Array(items),
                    forall|k: int| 0 <= k < i ==> is_unsigned(#[trigger] items@[k]@),
                    forall|k: int| 0 <= k < i ==> bytes@[k] == element_byte(items@[k]@),
                decreases items@.len() - i,
            {
                let unsigned = match &items[i] {
                    Dynamic::Number(n) => n.as_u64(),
                    _ => None,
                };
                match unsigned {
                    Some(n) => {
                        bytes.push((n % 256) as u8);
                    },
                    None => {
                        assert(!is_unsigned(item_views(items@)[i as int]));
                        return Param::Json(Dynamic::Array(items));
                    },
                }
                i += 1;
            }
            assert forall|k: int| 0 <= k < items@.len() implies is_unsigned(
                #[trigger] item_views(items@)[k],
            ) by {
                assert(is_unsigned(items@[k]@));
            }
            let param = Param::Blob(bytes);
            assert(bytes@ =~= bind_of(value@)->Blob_0);
            param
        },
        Dynamic::Object(fields) => Param::Json(Dynamic::Object(fields)),
    }
}

/// Binds the arguments of a statement, each to the placeholder of its
/// position.
pub fn bind_args(values: Vec<Dynamic>) -> (params: Vec<Param>)
    ensures
        params@.len() == values@.len(),
        forall|i: int| 0 <= i < values@.len() ==> (#[trigger] params@[i])@ == bind_of(values@[i]@),
{
    let ghost all = values@;
    let mut params: Vec<Param> = Vec::new();
    for value in it: values
        invariant
            it.seq() == all,
            params@.len() == it.index(),
            forall|k: int| 0 <= k < params@.len() ==> (#[trigger] params@[k])@ == bind_of(all[k]@),
    {
        params.push(bind_value(value));
    }
    params
}

/// Classifies a cell by the engine's name of its type.
pub fn storage_class(is_null: bool, declared: &str) -> (r: Option<StorageClass>)
    ensures
        r == class_named(is_null, declared@),
{
    let name = declared.to_owned();
    if is_null || name == "NULL".to_owned() {
        Some(StorageClass::Null)
    } else if name == "INTEGER".to_owned() {
        Some(StorageClass::Integer)
    } else if name == "REAL".to_owned() {
        Some(StorageClass::Real)
    } else if name == "TEXT".to_owned() {
        Some(StorageClass::Text)
    } else if name == "BLOB".to_owned() {
        Some(StorageClass::Blob)
    } else {
        None
    }
}

/// Decodes a cell into a dynamic value. A cell of an unsupported type is
/// an error that names the type.
pub fn to_json(cell: Cell) -> (r: Result<Dynamic, DbError>)
    ensures
        match r {
            Ok(value) => decode_of(cell@) == Ok::<DynamicView, Seq<char>>(value@),
            Err(e) => decode_of(cell@) matches Err(name) && e.unsupported(name),
        },
{
    match cell {
        Cell::Null => Ok(Dynamic::Null),
        Cell::Integer(i) => {
            if i >= 0 {
                Ok(Dynamic::Number(Number::PosInt(i as u64)))
            } else {
                Ok(Dynamic::Number(Number::NegInt(i)))
            }
        },
        Cell::Real(bits) => Ok(Dynamic::Number(Number::Float(bits))),
        Cell::Text(s) => Ok(Dynamic::Text(s)),
        Cell::Blob(bytes) => {
            let mut items: Vec<Dynamic> = Vec::new();
            let mut i: usize = 0;
            while i < bytes.len()
                invariant
                    i <= bytes@.len(),
                    items@.len() == i,
                    forall|k: int|
                        0 <= k < i ==> (#[trigger] items@[k])@ == DynamicView::Number(
                            Number::PosInt(bytes@[k] as u64),
                        ),
                decreases bytes@.len() - i,
            {
                items.push(Dynamic::Number(Number::PosInt(bytes[i] as u64)));
                i += 1;
            }
            let value = Dynamic::Array(items);
            assert(decode_of(cell@) == Ok::<DynamicView, Seq<char>>(value@)) by {
                lemma_array_view(items);
                assert(value@->Array_0 =~= decode_of(cell@)->Ok_0->Array_0);
            }
            Ok(value)
        },
        Cell::Unsupported(name) => Err(DbError::UnsupportedColumnType(name)),
    }
}

} // verus!
