//! The Lua value tree and its mathematical model.

use vstd::prelude::*;

verus! {

/// Mathematical model of a [`LuaValue`].
///
/// Numbers are carried as the 64 bit pattern of an IEEE-754 double, which is
/// exactly what the file format stores. A table is the sequence of its
/// entries in the order in which their keys were first inserted.
pub enum Value {
    Text(Seq<char>),
    List(Seq<Value>),
    Table(Seq<(Value, Value)>),
    Number(u64),
    Vector(Seq<u64>),
    Angle(Seq<u64>),
    Boolean(bool),
}

/// No key occurs at two positions of `entries`.
pub open spec fn distinct_keys(entries: Seq<(Value, Value)>) -> bool {
    forall|i: int, j: int| 0 <= i < j < entries.len() ==> entries[i].0 != entries[j].0
}

impl Value {
    /// The invariant of the value model: vectors and angles have exactly
    /// three components and no table holds a key twice, at any depth.
    pub open spec fn wf(self) -> bool
        decreases self,
    {
        match self {
            Value::List(items) => forall|i: int|
                0 <= i < items.len() ==> (#[trigger] items[i]).wf(),
            Value::Table(entries) => {
                &&& distinct_keys(entries)
                &&& forall|i: int|
                    0 <= i < entries.len() ==> (#[trigger] entries[i]).0.wf() && entries[i].1.wf()
            },
            Value::Vector(parts) => parts.len() == 3,
            Value::Angle(parts) => parts.len() == 3,
            _ => true,
        }
    }
}

/// A value that can be stored in, and read back from, a duplication file.
///
/// `Double`, `Vector` and `Angle` hold the bit patterns of their doubles
/// (`f64::to_bits`). A `Table` holds its entries in insertion order; no key
/// occurs twice in a well-formed table.
#[derive(Debug, Hash)]
pub enum LuaValue {
    String(String),
    Array(Vec<LuaValue>),
    Table(Vec<(LuaValue, LuaValue)>),
    Double(u64),
    Vector(Vec<u64>),
    Angle(Vec<u64>),
    Bool(bool),
}

/// The model of a value: texts become character sequences, arrays and
/// tables become sequences of the models of what they hold.
pub open spec fn model(v: LuaValue) -> Value
    decreases v,
{
    match v {
        LuaValue::String(s) => Value::Text(s@),
        LuaValue::Array(items) => Value::List(list_view(items@)),
        LuaValue::Table(entries) => Value::Table(table_view(entries@)),
        LuaValue::Double(bits) => Value::Number(bits),
        LuaValue::Vector(parts) => Value::Vector(parts@),
        LuaValue::Angle(parts) => Value::Angle(parts@),
        LuaValue::Bool(b) => Value::Boolean(b),
    }
}

/// Models of the elements of a list.
pub open spec fn list_view(items: Seq<LuaValue>) -> Seq<Value>
    decreases items,
{
    Seq::new(
        items.len(),
        |i: int|
            if 0 <= i < items.len() {
                model(items[i])
            } else {
                Value::Boolean(false)
            },
    )
}

/// Models of the entries of a table.
pub open spec fn table_view(entries: Seq<(LuaValue, LuaValue)>) -> Seq<(Value, Value)>
    decreases entries,
{
    Seq::new(
        entries.len(),
        |i: int|
            if 0 <= i < entries.len() {
                (model(entries[i].0), model(entries[i].1))
            } else {
                (Value::Boolean(false), Value::Boolean(false))
            },
    )
}

impl View for LuaValue {
    type V = Value;

    open spec fn view(&self) -> Value {
        model(*self)
    }
}

impl LuaValue {
    /// Whether the value obeys the invariant of the model: vectors and
    /// angles have three components and no table holds a key twice.
    pub fn is_well_formed(&self) -> (r: bool)
        ensures
            r == self@.wf(),
    {
        check_wf(self)
    }

    /// Whether the value is an array.
    pub fn is_array(&self) -> (r: bool)
        ensures
            r == (self is Array),
    {
        self.as_array().is_some()
    }

    /// The elements, if the value is an array.
    pub fn as_array(&self) -> (r: Option<&Vec<LuaValue>>)
        ensures
            r matches Some(items) ==> *self == LuaValue::Array(*items),
            r is None ==> !(self is Array),
    {
        match self {
            LuaValue::Array(array) => Some(array),
            _ => None,
        }
    }

    /// The elements, to be changed in place, if the value is an array.
    pub fn as_array_mut(&mut self) -> (r: Option<&mut Vec<LuaValue>>)
        ensures
            r matches Some(items) ==> *old(self) == LuaValue::Array(*items) && *final(self)
                == LuaValue::Array(*final(items)),
            r is None ==> !(*old(self) is Array) && *final(self) == *old(self),
    {
        match self {
            LuaValue::Array(list) => Some(list),
            _ => None,
        }
    }

    /// Whether the value is a text.
    pub fn is_string(&self) -> (r: bool)
        ensures
            r == (self is String),
    {
        self.as_str().is_some()
    }

    /// The text, if the value is one.
    pub fn as_str(&self) -> (r: Option<&str>)
        ensures
            r matches Some(s) ==> self is String && s@ == self->String_0@,
            r is None ==> !(self is String),
    {
        match self {
            LuaValue::String(s) => Some(s.as_str()),
            _ => None,
        }
    }

    /// Whether the value is a number.
    pub fn is_double(&self) -> (r: bool)
        ensures
            r == (self is Double),
    {
        match *self {
            LuaValue::Double(_) => true,
            _ => false,
        }
    }

    /// The bit pattern of the number, if this is one.
    pub fn as_double(&self) -> (r: Option<u64>)
        ensures
            r matches Some(bits) ==> *self == LuaValue::Double(bits),
            r is None ==> !(self is Double),
    {
        match *self {
            LuaValue::Double(double) => Some(double),
            _ => None,
        }
    }

    /// The bit pattern of the number, to be changed in place, if the value is a
    /// number.
    pub fn as_double_mut(&mut self) -> (r: Option<&mut u64>)
        ensures
            r matches Some(bits) ==> *old(self) == LuaValue::Double(*bits) && *final(self)
                == LuaValue::Double(*final(bits)),
            r is None ==> !(*old(self) is Double) && *final(self) == *old(self),
    {
        match self {
            LuaValue::Double(double) => Some(double),
            _ => None,
        }
    }

    /// Whether the value is a table.
    pub fn is_table(&self) -> (r: bool)
        ensures
            r == (self is Table),
    {
        match *self {
            LuaValue::Table(_) => true,
            _ => false,
        }
    }

    /// The entries, if the value is a table.
    pub fn as_table(&self) -> (r: Option<&Vec<(LuaValue, LuaValue)>>)
        ensures
            r matches Some(entries) ==> *self == LuaValue::Table(*entries),
            r is None ==> !(self is Table),
    {
        match self {
            LuaValue::Table(table) => Some(table),
            _ => None,
        }
    }

    /// The entries, to be changed in place, if the value is a table. Keeping
    /// the keys distinct is up to the caller.
    pub fn as_table_mut(&mut self) -> (r: Option<&mut Vec<(LuaValue, LuaValue)>>)
        ensures
            r matches Some(entries) ==> *old(self) == LuaValue::Table(*entries) && *final(self)
                == LuaValue::Table(*final(entries)),
            r is None ==> !(*old(self) is Table) && *final(self) == *old(self),
    {
        match self {
            LuaValue::Table(table) => Some(table),
            _ => None,
        }
    }

    /// Whether the value is a vector.
    pub fn is_vector(&self) -> (r: bool)
        ensures
            r == (self is Vector),
    {
        match *self {
            LuaValue::Vector(_) => true,
            _ => false,
        }
    }

    /// The bit patterns of the components, if the value is a vector.
    pub fn as_vector(&self) -> (r: Option<&Vec<u64>>)
        ensures
            r matches Some(parts) ==> *self == LuaValue::Vector(*parts),
            r is None ==> !(self is Vector),
    {
        match self {
            LuaValue::Vector(vector) => Some(vector),
            _ => None,
        }
    }

    /// The components, to be changed in place, if the value is a vector.
    /// Keeping them three is up to the caller.
    pub fn as_vector_mut(&mut self) -> (r: Option<&mut Vec<u64>>)
        ensures
            r matches Some(parts) ==> *old(self) == LuaValue::Vector(*parts) && *final(self)
                == LuaValue::Vector(*final(parts)),
            r is None ==> !(*old(self) is Vector) && *final(self) == *old(self),
    {
        match self {
            LuaValue::Vector(vector) => Some(vector),
            _ => None,
        }
    }

    /// Whether the value is an angle.
    pub fn is_angle(&self) -> (r: bool)
        ensures
            r == (self is Angle),
    {
        match *self {
            LuaValue::Angle(_) => true,
            _ => false,
        }
    }

    /// The bit patterns of the components, if the value is an angle.
    pub fn as_angle(&self) -> (r: Option<&Vec<u64>>)
        ensures
            r matches Some(parts) ==> *self == LuaValue::Angle(*parts),
            r is None ==> !(self is Angle),
    {
        match self {
            LuaValue::Angle(angle) => Some(angle),
            _ => None,
        }
    }

    /// The components, to be changed in place, if the value is an angle.
    /// Keeping them three is up to the caller.
    pub fn as_angle_mut(&mut self) -> (r: Option<&mut Vec<u64>>)
        ensures
            r matches Some(parts) ==> *old(self) == LuaValue::Angle(*parts) && *final(self)
                == LuaValue::Angle(*final(parts)),
            r is None ==> !(*old(self) is Angle) && *final(self) == *old(self),
    {
        match self {
            LuaValue::Angle(angle) => Some(angle),
            _ => None,
        }
    }

    /// Whether the value is a boolean.
    pub fn is_bool(&self) -> (r: bool)
        ensures
            r == (self is Bool),
    {
        match *self {
            LuaValue::Bool(_) => true,
            _ => false,
        }
    }

    /// The boolean, if the value is one.
    pub fn as_bool(&self) -> (r: Option<bool>)
        ensures
            r matches Some(b) ==> *self == LuaValue::Bool(b),
            r is None ==> !(self is Bool),
    {
        match *self {
            LuaValue::Bool(boolean) => Some(boolean),
            _ => None,
        }
    }
}

impl PartialEq for LuaValue {
    /// Two values are equal when their models are. Tables are compared entry
    /// by entry, in their order.
    fn eq(&self, other: &LuaValue) -> (r: bool) {
        same_value(self, other)
    }
}

impl vstd::std_specs::cmp::PartialEqSpecImpl for LuaValue {
    open spec fn obeys_eq_spec() -> bool {
        true
    }

    open spec fn eq_spec(&self, other: &LuaValue) -> bool {
        self@ == other@
    }
}

impl Eq for LuaValue {

}

impl Clone for LuaValue {
    /// The clone has the same model as the value it was made from.
    fn clone(&self) -> (r: LuaValue)
        ensures
            r@ == self@,
    {
        copy_value(self)
    }
}

/// Structural comparison of two values.
fn same_value(x: &LuaValue, y: &LuaValue) -> (r: bool)
    ensures
        r == (x@ == y@),
    decreases x,
{
    match x {
        LuaValue::String(a) => match y {
            LuaValue::String(b) => *a == *b,
            _ => false,
        },
        LuaValue::Array(a) => match y {
            LuaValue::Array(b) => {
                if a.len() != b.len() {
                    assert(list_view(a@).len() != list_view(b@).len());
                    return false;
                }
                let mut i: usize = 0;
                while i < a.len()
                    invariant
                        i <= a.len(),
                        a.len() == b.len(),
                        x is Array,
                        *a == x->Array_0,
                        x@ == Value::List(list_view(a@)),
                        y@ == Value::List(list_view(b@)),
                        forall|j: int| 0 <= j < i ==> a@[j]@ == b@[j]@,
                    decreases a.len() - i,
                {
                    if !same_value(&a[i], &b[i]) {
                        assert(list_view(a@)[i as int] != list_view(b@)[i as int]);
                        return false;
                    }
                    i += 1;
                }
                assert(list_view(a@) =~= list_view(b@));
                true
            },
            _ => false,
        },
        LuaValue::Table(a) => match y {
            LuaValue::Table(b) => {
                if a.len() != b.len() {
                    assert(table_view(a@).len() != table_view(b@).len());
                    return false;
                }
                let mut i: usize = 0;
                while i < a.len()
                    invariant
                        i <= a.len(),
                        a.len() == b.len(),
                        x is Table,
                        *a == x->Table_0,
                        x@ == Value::Table(table_view(a@)),
                        y@ == Value::Table(table_view(b@)),
                        forall|j: int| 0 <= j < i ==> a@[j].0@ == b@[j].0@ && a@[j].1@ == b@[j].1@,
                    decreases a.len() - i,
                {
                    if !same_value(&a[i].0, &b[i].0) || !same_value(&a[i].1, &b[i].1) {
                        assert(table_view(a@)[i as int] != table_view(b@)[i as int]);
                        return false;
                    }
                    i += 1;
                }
                assert(table_view(a@) =~= table_view(b@));
                true
            },
            _ => false,
        },
        LuaValue::Double(a) => match y {
            LuaValue::Double(b) => *a == *b,
            _ => false,
        },
        LuaValue::Vector(a) => match y {
            LuaValue::Vector(b) => same_bits(a, b),
            _ => false,
        },
        LuaValue::Angle(a) => match y {
            LuaValue::Angle(b) => same_bits(a, b),
            _ => false,
        },
        LuaValue::Bool(a) => match y {
            LuaValue::Bool(b) => *a == *b,
            _ => false,
        },
    }
}

/// Whether two component lists hold the same bit patterns.
fn same_bits(a: &Vec<u64>, b: &Vec<u64>) -> (r: bool)
    ensures
        r == (a@ == b@),
{
    if a.len() != b.len() {
        return false;
    }
    let mut i: usize = 0;
    while i < a.len()
        invariant
            i <= a.len(),
            a.len() == b.len(),
            forall|j: int| 0 <= j < i ==> a@[j] == b@[j],
        decreases a.len() - i,
    {
        if a[i] != b[i] {
            return false;
        }
        i += 1;
    }
    assert(a@ =~= b@);
    true
}

/// A deep copy of a value.
fn copy_value(v: &LuaValue) -> (r: LuaValue)
    ensures
        r@ == v@,
    decreases v,
{
    match v {
        LuaValue::String(s) => LuaValue::String(s.clone()),
        LuaValue::Array(items) => {
            let mut copy: Vec<LuaValue> = Vec::new();
            let mut i: usize = 0;
            while i < items.len()
                invariant
                    i <= items.len(),
                    v is Array,
                    *items == v->Array_0,
                    copy@.len() == i,
                    forall|j: int| 0 <= j < i ==> copy@[j]@ == items@[j]@,
                decreases items.len() - i,
            {
                copy.push(copy_value(&items[i]));
                i += 1;
            }
            let r = LuaValue::Array(copy);
            assert(list_view(copy@) =~= list_view(items@));
            r
        },
        LuaValue::Table(entries) => {
            let mut copy: Vec<(LuaValue, LuaValue)> = Vec::new();
            let mut i: usize = 0;
            while i < entries.len()
                invariant
                    i <= entries.len(),
                    v is Table,
                    *entries == v->Table_0,
                    copy@.len() == i,
                    forall|j: int|
                        0 <= j < i ==> copy@[j].0@ == entries@[j].0@ && copy@[j].1@
                            == entries@[j].1@,
                decreases entries.len() - i,
            {
                let key = copy_value(&entries[i].0);
                let value = copy_value(&entries[i].1);
                copy.push((key, value));
                i += 1;
            }
            let r = LuaValue::Table(copy);
            assert(table_view(copy@) =~= table_view(entries@));
            r
        },
        LuaValue::Double(bits) => LuaValue::Double(*bits),
        LuaValue::Vector(parts) => LuaValue::Vector(copy_bits(parts)),
        LuaValue::Angle(parts) => LuaValue::Angle(copy_bits(parts)),
        LuaValue::Bool(b) => LuaValue::Bool(*b),
    }
}

/// A copy of a component list.
fn copy_bits(parts: &Vec<u64>) -> (r: Vec<u64>)
    ensures
        r@ == parts@,
{
    let mut copy: Vec<u64> = Vec::new();
    let mut i: usize = 0;
    while i < parts.len()
        invariant
            i <= parts.len(),
            copy@ == parts@.take(i as int),
        decreases parts.len() - i,
    {
        copy.push(parts[i]);
        i += 1;
    }
    copy
}

/// Whether a value obeys the invariant of the model.
fn check_wf(v: &LuaValue) -> (r: bool)
    ensures
        r == v@.wf(),
    decreases v,
{
    match v {
        LuaValue::Array(items) => {
            let mut i: usize = 0;
            while i < items.len()
                invariant
                    i <= items.len(),
                    v is Array,
                    *items == v->Array_0,
                    forall|j: int| 0 <= j < i ==> (#[trigger] v@->List_0[j]).wf(),
                decreases items.len() - i,
            {
                if !check_wf(&items[i]) {
                    assert(!v@->List_0[i as int].wf());
                    return false;
                }
                i += 1;
            }
            true
        },
        LuaValue::Table(entries) => {
            if !keys_distinct(entries) {
                return false;
            }
            let mut i: usize = 0;
            while i < entries.len()
                invariant
                    i <= entries.len(),
                    v is Table,
                    *entries == v->Table_0,
                    forall|j: int|
                        0 <= j < i ==> (#[trigger] v@->Table_0[j]).0.wf() && v@->Table_0[j].1.wf(),
                decreases entries.len() - i,
            {
                if !check_wf(&entries[i].0) || !check_wf(&entries[i].1) {
                    assert(!(v@->Table_0[i as int].0.wf() && v@->Table_0[i as int].1.wf()));
                    return false;
                }
                i += 1;
            }
            true
        },
        LuaValue::Vector(parts) => parts.len() == 3,
        LuaValue::Angle(parts) => parts.len() == 3,
        _ => true,
    }
}

/// Whether no key occurs twice among the entries.
fn keys_distinct(entries: &Vec<(LuaValue, LuaValue)>) -> (r: bool)
    ensures
        r == distinct_keys(table_view(entries@)),
{
    let ghost model = table_view(entries@);
    let mut j: usize = 0;
    while j < entries.len()
        invariant
            j <= entries.len(),
            model == table_view(entries@),
            forall|a: int, b: int| 0 <= a < b < j ==> model[a].0 != model[b].0,
        decreases entries.len() - j,
    {
        let mut i: usize = 0;
        while i < j
            invariant
                i <= j < entries.len(),
                model == table_view(entries@),
                forall|a: int| 0 <= a < i ==> model[a].0 != model[j as int].0,
            decreases j - i,
        {
            if entries[i].0 == entries[j].0 {
                assert(model[i as int].0 == model[j as int].0);
                return false;
            }
            i += 1;
        }
        j += 1;
    }
    true
}

} // verus!
