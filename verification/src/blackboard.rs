use vstd::prelude::*;
use vstd::std_specs::convert::IntoSpec;

verus! {

/// Dense identifier of a blackboard key.
#[derive(Clone, Copy, Debug, Default, PartialEq, Eq, Hash, PartialOrd, Ord, Structural)]
pub struct BlackboardKeyId(pub u16);

/// The declared type of a blackboard key.
#[derive(Clone, Copy, Debug, PartialEq, Eq, Structural)]
pub enum BlackboardValueType {
    F32,
    I32,
    Bool,
    Entity,
    Vec2,
    Vec3,
    String,
}

/// A blackboard value.
///
/// Floating-point components are held as their IEEE-754 binary32 bit patterns
/// and entities as their 64-bit identifiers, so that values compare exactly as
/// the underlying numbers do.
#[derive(Debug)]
pub enum BlackboardValue {
    F32(u32),
    I32(i32),
    Bool(bool),
    Entity(u64),
    Vec2(u32, u32),
    Vec3(u32, u32, u32),
    String(String),
}

impl Clone for BlackboardValue {
    fn clone(&self) -> (r: Self)
        ensures
            r == *self,
    {
        match self {
            BlackboardValue::F32(v) => BlackboardValue::F32(*v),
            BlackboardValue::I32(v) => BlackboardValue::I32(*v),
            BlackboardValue::Bool(v) => BlackboardValue::Bool(*v),
            BlackboardValue::Entity(v) => BlackboardValue::Entity(*v),
            BlackboardValue::Vec2(x, y) => BlackboardValue::Vec2(*x, *y),
            BlackboardValue::Vec3(x, y, z) => BlackboardValue::Vec3(*x, *y, *z),
            BlackboardValue::String(s) => BlackboardValue::String(s.clone()),
        }
    }
}

/// A binary32 bit pattern encodes a NaN: all exponent bits set and a non-zero fraction.
pub open spec fn f32_bits_is_nan(bits: u32) -> bool {
    (bits / 0x80_0000) % 0x100 == 0xff && bits % 0x80_0000 != 0
}

/// Two binary32 bit patterns encode equal numbers: neither is a NaN and they are
/// identical or both encode a zero.
pub open spec fn f32_bits_eq(a: u32, b: u32) -> bool {
    &&& !f32_bits_is_nan(a)
    &&& !f32_bits_is_nan(b)
    &&& (a == b || (a % 0x8000_0000 == 0 && b % 0x8000_0000 == 0))
}

/// Equality of two values: same variant and equal components, floating-point
/// components compared as numbers.
pub open spec fn values_equal(a: BlackboardValue, b: BlackboardValue) -> bool {
    match (a, b) {
        (BlackboardValue::F32(x), BlackboardValue::F32(y)) => f32_bits_eq(x, y),
        (BlackboardValue::I32(x), BlackboardValue::I32(y)) => x == y,
        (BlackboardValue::Bool(x), BlackboardValue::Bool(y)) => x == y,
        (BlackboardValue::Entity(x), BlackboardValue::Entity(y)) => x == y,
        (BlackboardValue::Vec2(x1, y1), BlackboardValue::Vec2(x2, y2)) => f32_bits_eq(x1, x2)
            && f32_bits_eq(y1, y2),
        (BlackboardValue::Vec3(x1, y1, z1), BlackboardValue::Vec3(x2, y2, z2)) => f32_bits_eq(
            x1,
            x2,
        ) && f32_bits_eq(y1, y2) && f32_bits_eq(z1, z2),
        (BlackboardValue::String(s), BlackboardValue::String(t)) => s@ == t@,
        _ => false,
    }
}

fn f32_bits_equal(a: u32, b: u32) -> (r: bool)
    ensures
        r == f32_bits_eq(a, b),
{
    let a_nan = (a / 0x80_0000) % 0x100 == 0xff && a % 0x80_0000 != 0;
    let b_nan = (b / 0x80_0000) % 0x100 == 0xff && b % 0x80_0000 != 0;
    !a_nan && !b_nan && (a == b || (a % 0x8000_0000 == 0 && b % 0x8000_0000 == 0))
}

/// Compares two values as numbers and strings.
pub fn value_eq(a: &BlackboardValue, b: &BlackboardValue) -> (r: bool)
    ensures
        r == values_equal(*a, *b),
{
    match (a, b) {
        (BlackboardValue::F32(x), BlackboardValue::F32(y)) => f32_bits_equal(*x, *y),
        (BlackboardValue::I32(x), BlackboardValue::I32(y)) => *x == *y,
        (BlackboardValue::Bool(x), BlackboardValue::Bool(y)) => *x == *y,
        (BlackboardValue::Entity(x), BlackboardValue::Entity(y)) => *x == *y,
        (BlackboardValue::Vec2(x1, y1), BlackboardValue::Vec2(x2, y2)) => f32_bits_equal(*x1, *x2)
            && f32_bits_equal(*y1, *y2),
        (BlackboardValue::Vec3(x1, y1, z1), BlackboardValue::Vec3(x2, y2, z2)) => f32_bits_equal(
            *x1,
            *x2,
        ) && f32_bits_equal(*y1, *y2) && f32_bits_equal(*z1, *z2),
        (BlackboardValue::String(s), BlackboardValue::String(t)) => s.eq(t),
        _ => false,
    }
}

impl BlackboardValue {
    pub open spec fn spec_value_type(self) -> BlackboardValueType {
        match self {
            BlackboardValue::F32(_) => BlackboardValueType::F32,
            BlackboardValue::I32(_) => BlackboardValueType::I32,
            BlackboardValue::Bool(_) => BlackboardValueType::Bool,
            BlackboardValue::Entity(_) => BlackboardValueType::Entity,
            BlackboardValue::Vec2(_, _) => BlackboardValueType::Vec2,
            BlackboardValue::Vec3(_, _, _) => BlackboardValueType::Vec3,
            BlackboardValue::String(_) => BlackboardValueType::String,
        }
    }

    /// The type tag of the value.
    pub fn value_type(&self) -> (r: BlackboardValueType)
        ensures
            r == self.spec_value_type(),
    {
        match self {
            BlackboardValue::F32(_) => BlackboardValueType::F32,
            BlackboardValue::I32(_) => BlackboardValueType::I32,
            BlackboardValue::Bool(_) => BlackboardValueType::Bool,
            BlackboardValue::Entity(_) => BlackboardValueType::Entity,
            BlackboardValue::Vec2(_, _) => BlackboardValueType::Vec2,
            BlackboardValue::Vec3(_, _, _) => BlackboardValueType::Vec3,
            BlackboardValue::String(_) => BlackboardValueType::String,
        }
    }
}

impl From<i32> for BlackboardValue {
    fn from(value: i32) -> (r: Self) {
        BlackboardValue::I32(value)
    }
}

impl vstd::std_specs::convert::FromSpecImpl<i32> for BlackboardValue {
    open spec fn obeys_from_spec() -> bool {
        true
    }

    open spec fn from_spec(v: i32) -> BlackboardValue {
        BlackboardValue::I32(v)
    }
}

impl From<bool> for BlackboardValue {
    fn from(value: bool) -> (r: Self) {
        BlackboardValue::Bool(value)
    }
}

impl vstd::std_specs::convert::FromSpecImpl<bool> for BlackboardValue {
    open spec fn obeys_from_spec() -> bool {
        true
    }

    open spec fn from_spec(v: bool) -> BlackboardValue {
        BlackboardValue::Bool(v)
    }
}

impl From<String> for BlackboardValue {
    fn from(value: String) -> (r: Self) {
        BlackboardValue::String(value)
    }
}

impl vstd::std_specs::convert::FromSpecImpl<String> for BlackboardValue {
    open spec fn obeys_from_spec() -> bool {
        true
    }

    open spec fn from_spec(v: String) -> BlackboardValue {
        BlackboardValue::String(v)
    }
}

/// A declared blackboard key.
#[derive(Debug)]
pub struct BlackboardKeyDefinition {
    pub id: BlackboardKeyId,
    pub name: String,
    pub value_type: BlackboardValueType,
    pub required: bool,
    pub default_value: Option<BlackboardValue>,
}

impl Clone for BlackboardKeyDefinition {
    fn clone(&self) -> (r: Self)
        ensures
            r == *self,
    {
        BlackboardKeyDefinition {
            id: self.id,
            name: self.name.clone(),
            value_type: self.value_type,
            required: self.required,
            default_value: match &self.default_value {
                Some(v) => Some(v.clone()),
                None => None,
            },
        }
    }
}

/// Why a blackboard access failed.
#[derive(Clone, Copy, Debug, PartialEq, Eq, Structural)]
pub enum BlackboardError {
    UnknownKey(BlackboardKeyId),
    TypeMismatch { expected: BlackboardValueType, actual: BlackboardValueType },
}

/// Typed key/value storage with revision tracking.
///
/// `values` and `declared_types` are indexed by key id; a key is known when its
/// index is in range. Every effective write bumps `revision` (saturating) and
/// records the key once in `dirty_keys`.
#[derive(Clone, Debug, Default)]
pub struct Blackboard {
    pub values: Vec<Option<BlackboardValue>>,
    pub declared_types: Vec<Option<BlackboardValueType>>,
    pub revision: u64,
    pub dirty_keys: Vec<BlackboardKeyId>,
}

/// `s` truncated or padded with `fill` to exactly `n` elements.
pub open spec fn resized<T>(s: Seq<T>, n: nat, fill: T) -> Seq<T> {
    if n <= s.len() {
        s.subrange(0, n as int)
    } else {
        s + Seq::new((n - s.len()) as nat, |i: int| fill)
    }
}

/// The length both vectors are grown to before a schema is installed.
pub open spec fn schema_len(len: nat, schema_len: nat) -> nat {
    if len < schema_len { schema_len } else { len }
}

/// The values and declared types after installing a schema: both tables
/// grow to the schema's length when the values are shorter, then each key
/// definition is applied in order.
pub open spec fn schema_installed(
    values: Seq<Option<BlackboardValue>>,
    declared: Seq<Option<BlackboardValueType>>,
    schema: Seq<BlackboardKeyDefinition>,
) -> (Seq<Option<BlackboardValue>>, Seq<Option<BlackboardValueType>>) {
    let grow = values.len() < schema.len();
    let values0 = if grow { resized(values, schema.len(), None) } else { values };
    let declared0 = if grow { resized(declared, schema.len(), None) } else { declared };
    (values_after_schema(values0, schema), declared_after_schema(declared0, schema))
}

/// The declared types after installing the first `schema.len()` key definitions
/// in order: each definition sets the type of its key.
pub open spec fn declared_after_schema(
    declared: Seq<Option<BlackboardValueType>>,
    schema: Seq<BlackboardKeyDefinition>,
) -> Seq<Option<BlackboardValueType>>
    decreases schema.len(),
{
    if schema.len() == 0 {
        declared
    } else {
        let prev = declared_after_schema(declared, schema.drop_last());
        let key = schema.last();
        prev.update(key.id.0 as int, Some(key.value_type))
    }
}

/// The values after installing the first `schema.len()` key definitions in
/// order: each definition fills its key with its default value when the key
/// holds no value yet.
pub open spec fn values_after_schema(
    values: Seq<Option<BlackboardValue>>,
    schema: Seq<BlackboardKeyDefinition>,
) -> Seq<Option<BlackboardValue>>
    decreases schema.len(),
{
    if schema.len() == 0 {
        values
    } else {
        let prev = values_after_schema(values, schema.drop_last());
        let key = schema.last();
        if prev[key.id.0 as int] is None {
            prev.update(key.id.0 as int, key.default_value)
        } else {
            prev
        }
    }
}

/// The dirty-key list after recording a write to `key`.
pub open spec fn dirty_after(dirty: Seq<BlackboardKeyId>, key: BlackboardKeyId) -> Seq<BlackboardKeyId> {
    if dirty.contains(key) {
        dirty
    } else {
        dirty.push(key)
    }
}

/// Revision counter after one more write.
pub open spec fn next_revision(revision: u64) -> u64 {
    if revision == u64::MAX { revision } else { (revision + 1) as u64 }
}

impl Blackboard {
    /// The stored value of a key, or the error for an unknown key.
    pub open spec fn spec_get(self, key: BlackboardKeyId) -> Result<Option<BlackboardValue>, BlackboardError> {
        if (key.0 as int) < self.values@.len() {
            Ok(self.values@[key.0 as int])
        } else {
            Err(BlackboardError::UnknownKey(key))
        }
    }

    /// The declared type of a key, or the error for an unknown key.
    pub open spec fn spec_declared_type(self, key: BlackboardKeyId) -> Result<Option<BlackboardValueType>, BlackboardError> {
        if (key.0 as int) < self.declared_types@.len() {
            Ok(self.declared_types@[key.0 as int])
        } else {
            Err(BlackboardError::UnknownKey(key))
        }
    }

    /// What a typed read of a key returns: the value when it has the expected
    /// type, a mismatch error when it has another one.
    pub open spec fn spec_typed_get(self, key: BlackboardKeyId, expected: BlackboardValueType) -> Result<Option<BlackboardValue>, BlackboardError> {
        match self.spec_get(key) {
            Err(e) => Err(e),
            Ok(None) => Ok(None),
            Ok(Some(v)) => if v.spec_value_type() == expected {
                Ok(Some(v))
            } else {
                Err(BlackboardError::TypeMismatch { expected, actual: v.spec_value_type() })
            },
        }
    }

    /// The outcome of writing `value` under `key`.
    pub open spec fn spec_set_result(self, key: BlackboardKeyId, value: BlackboardValue) -> Result<(), BlackboardError> {
        match self.spec_declared_type(key) {
            Err(e) => Err(e),
            Ok(Some(expected)) if expected != value.spec_value_type() => Err(
                BlackboardError::TypeMismatch { expected, actual: value.spec_value_type() },
            ),
            _ => if (key.0 as int) < self.values@.len() {
                Ok(())
            } else {
                Err(BlackboardError::UnknownKey(key))
            },
        }
    }

    /// Whether a successful write of `value` under `key` changes the stored value.
    pub open spec fn spec_write_changes(self, key: BlackboardKeyId, value: BlackboardValue) -> bool {
        match self.values@[key.0 as int] {
            Some(old) => !values_equal(old, value),
            None => true,
        }
    }

    /// An empty blackboard with room for `capacity` keys and no declared types.
    pub fn with_capacity(capacity: usize) -> (r: Self)
        ensures
            r.values@ == Seq::new(capacity as nat, |i: int| None::<BlackboardValue>),
            r.declared_types@ == Seq::new(capacity as nat, |i: int| None::<BlackboardValueType>),
            r.revision == 0,
            r.dirty_keys@ == Seq::<BlackboardKeyId>::empty(),
    {
        let mut values: Vec<Option<BlackboardValue>> = Vec::new();
        let mut declared_types: Vec<Option<BlackboardValueType>> = Vec::new();
        let mut i: usize = 0;
        while i < capacity
            invariant
                i <= capacity,
                values@ == Seq::new(i as nat, |j: int| None::<BlackboardValue>),
                declared_types@ == Seq::new(i as nat, |j: int| None::<BlackboardValueType>),
            decreases capacity - i,
        {
            values.push(None);
            declared_types.push(None);
            i = i + 1;
        }
        Blackboard { values, declared_types, revision: 0, dirty_keys: Vec::new() }
    }

    /// A blackboard sized for the schema with its types and defaults installed.
    pub fn from_schema(schema: &[BlackboardKeyDefinition]) -> (r: Self)
        requires
            forall|k: int| 0 <= k < schema@.len() ==> (#[trigger] schema@[k].id.0 as int) < schema@.len(),
        ensures
            r.values@ == values_after_schema(Seq::new(schema@.len(), |i: int| None::<BlackboardValue>), schema@),
            r.declared_types@ == declared_after_schema(Seq::new(schema@.len(), |i: int| None::<BlackboardValueType>), schema@),
            r.revision == 0,
            r.dirty_keys@ == Seq::<BlackboardKeyId>::empty(),
    {
        let mut blackboard = Self::with_capacity(schema.len());
        blackboard.ensure_schema(schema);
        proof {
            assert(resized(Seq::new(schema@.len(), |i: int| None::<BlackboardValue>), schema@.len(), None) =~= Seq::new(schema@.len(), |i: int| None::<BlackboardValue>));
            assert(resized(Seq::new(schema@.len(), |i: int| None::<BlackboardValueType>), schema@.len(), None) =~= Seq::new(schema@.len(), |i: int| None::<BlackboardValueType>));
        }
        blackboard
    }

    /// Grows the storage to the schema size (when it is smaller) and installs
    /// each key's declared type and, for empty keys, its default value.
    pub fn ensure_schema(&mut self, schema: &[BlackboardKeyDefinition])
        requires
            forall|k: int| 0 <= k < schema@.len() ==> {
                &&& (#[trigger] schema@[k].id.0 as int) < schema_len(old(self).values@.len(), schema@.len())
                &&& (schema@[k].id.0 as int) < (if old(self).values@.len() < schema@.len() { schema@.len() } else { old(self).declared_types@.len() })
            },
        ensures
            (final(self).values@, final(self).declared_types@)
                == schema_installed(old(self).values@, old(self).declared_types@, schema@),
            final(self).revision == old(self).revision,
            final(self).dirty_keys@ == old(self).dirty_keys@,
    {
        let n = schema.len();
        if self.values.len() < n {
            self.values.resize(n, None);
            self.declared_types.resize(n, None);
            proof {
                assert(self.values@ =~= resized(old(self).values@, schema@.len(), None));
                assert(self.declared_types@ =~= resized(old(self).declared_types@, schema@.len(), None));
            }
        }
        let ghost values0 = self.values@;
        let ghost declared0 = self.declared_types@;
        let mut k: usize = 0;
        while k < n
            invariant
                k <= n,
                n == schema@.len(),
                self.values@.len() == values0.len(),
                self.declared_types@.len() == declared0.len(),
                forall|j: int| 0 <= j < schema@.len() ==> (#[trigger] schema@[j].id.0 as int) < values0.len()
                    && (schema@[j].id.0 as int) < declared0.len(),
                self.values@ == values_after_schema(values0, schema@.subrange(0, k as int)),
                self.declared_types@ == declared_after_schema(declared0, schema@.subrange(0, k as int)),
                self.revision == old(self).revision,
                self.dirty_keys@ == old(self).dirty_keys@,
            decreases n - k,
        {
            let definition = &schema[k];
            let index = definition.id.0 as usize;
            proof {
                assert(schema@.subrange(0, k + 1).drop_last() =~= schema@.subrange(0, k as int));
                assert(schema@.subrange(0, k + 1).last() == schema@[k as int]);
            }
            self.declared_types.set(index, Some(definition.value_type));
            if self.values[index].is_none() {
                let default_value = match &definition.default_value {
                    Some(v) => Some(v.clone()),
                    None => None,
                };
                self.values.set(index, default_value);
            }
            k = k + 1;
        }
        proof {
            assert(schema@.subrange(0, n as int) =~= schema@);
        }
    }

    /// The declared type of a key (`None` when undeclared).
    pub fn declared_type(&self, key: BlackboardKeyId) -> (r: Result<Option<BlackboardValueType>, BlackboardError>)
        ensures
            r == self.spec_declared_type(key),
    {
        let index = key.0 as usize;
        if index < self.declared_types.len() {
            Ok(self.declared_types[index])
        } else {
            Err(BlackboardError::UnknownKey(key))
        }
    }

    /// Whether the key is known and holds a value.
    pub fn contains(&self, key: BlackboardKeyId) -> (r: bool)
        ensures
            r == ((key.0 as int) < self.values@.len() && self.values@[key.0 as int] is Some),
    {
        let index = key.0 as usize;
        index < self.values.len() && self.values[index].is_some()
    }

    /// The stored value of a key.
    pub fn get(&self, key: BlackboardKeyId) -> (r: Result<Option<&BlackboardValue>, BlackboardError>)
        ensures
            match self.spec_get(key) {
                Ok(Some(v)) => r matches Ok(Some(x)) && *x == v,
                Ok(None) => r matches Ok(None),
                Err(e) => r == Err::<Option<&BlackboardValue>, BlackboardError>(e),
            },
    {
        let index = key.0 as usize;
        if index < self.values.len() {
            match &self.values[index] {
                Some(v) => Ok(Some(v)),
                None => Ok(None),
            }
        } else {
            Err(BlackboardError::UnknownKey(key))
        }
    }

    /// Records a write to `key`.
    fn touch(&mut self, key: BlackboardKeyId)
        ensures
            final(self).values == old(self).values,
            final(self).declared_types == old(self).declared_types,
            final(self).revision == next_revision(old(self).revision),
            final(self).dirty_keys@ == dirty_after(old(self).dirty_keys@, key),
    {
        self.revision = self.revision.saturating_add(1);
        let mut i: usize = 0;
        let mut found = false;
        while i < self.dirty_keys.len()
            invariant
                i <= self.dirty_keys@.len(),
                found == (exists|j: int| 0 <= j < i && self.dirty_keys@[j] == key),
            decreases self.dirty_keys@.len() - i,
        {
            if self.dirty_keys[i] == key {
                found = true;
            }
            i = i + 1;
        }
        proof {
            if found {
                let j = choose|j: int| 0 <= j < i && self.dirty_keys@[j] == key;
                assert(self.dirty_keys@.contains(key));
            } else {
                assert(!self.dirty_keys@.contains(key));
            }
        }
        if !found {
            self.dirty_keys.push(key);
        }
    }

    /// Takes the value out of a key; an actual removal counts as a write.
    pub fn remove(&mut self, key: BlackboardKeyId) -> (r: Result<Option<BlackboardValue>, BlackboardError>)
        ensures
            r == old(self).spec_get(key),
            final(self).declared_types == old(self).declared_types,
            r matches Ok(Some(_)) ==> {
                &&& final(self).values@ == old(self).values@.update(key.0 as int, None)
                &&& final(self).revision == next_revision(old(self).revision)
                &&& final(self).dirty_keys@ == dirty_after(old(self).dirty_keys@, key)
            },
            !(r matches Ok(Some(_))) ==> {
                &&& final(self).values@ == old(self).values@
                &&& final(self).revision == old(self).revision
                &&& final(self).dirty_keys@ == old(self).dirty_keys@
            },
    {
        let index = key.0 as usize;
        if index >= self.values.len() {
            return Err(BlackboardError::UnknownKey(key));
        }
        let value = match &self.values[index] {
            Some(v) => Some(v.clone()),
            None => None,
        };
        self.values.set(index, None);
        proof {
            assert(self.values@ =~= old(self).values@.update(key.0 as int, None));
        }
        if value.is_some() {
            self.touch(key);
        } else {
            proof {
                assert(self.values@ =~= old(self).values@);
            }
        }
        Ok(value)
    }

    /// Writes a value. Rejected for unknown keys and for values whose type
    /// differs from the key's declared type; a write of a value equal to the
    /// stored one leaves the blackboard unchanged.
    pub fn set_value(&mut self, key: BlackboardKeyId, value: BlackboardValue) -> (r: Result<(), BlackboardError>)
        ensures
            r == old(self).spec_set_result(key, value),
            final(self).declared_types == old(self).declared_types,
            r is Ok && old(self).spec_write_changes(key, value) ==> {
                &&& final(self).values@ == old(self).values@.update(key.0 as int, Some(value))
                &&& final(self).revision == next_revision(old(self).revision)
                &&& final(self).dirty_keys@ == dirty_after(old(self).dirty_keys@, key)
            },
            !(r is Ok && old(self).spec_write_changes(key, value)) ==> {
                &&& final(self).values@ == old(self).values@
                &&& final(self).revision == old(self).revision
                &&& final(self).dirty_keys@ == old(self).dirty_keys@
            },
    {
        let declared = self.declared_type(key);
        match declared {
            Err(e) => {
                return Err(e);
            },
            Ok(Some(expected)) => {
                let actual = value.value_type();
                if expected != actual {
                    return Err(BlackboardError::TypeMismatch { expected, actual });
                }
            },
            Ok(None) => {},
        }
        let index = key.0 as usize;
        if index >= self.values.len() {
            return Err(BlackboardError::UnknownKey(key));
        }
        let same = match &self.values[index] {
            Some(current) => value_eq(current, &value),
            None => false,
        };
        if !same {
            self.values.set(index, Some(value));
            self.touch(key);
        }
        Ok(())
    }

    /// Writes any value convertible into a blackboard value; behaves as
    /// [`Blackboard::set_value`] on the converted value.
    pub fn set<V: Into<BlackboardValue>>(&mut self, key: BlackboardKeyId, value: V) -> (r: Result<(), BlackboardError>)
        ensures
            <V as IntoSpec<BlackboardValue>>::obeys_into_spec() ==> ({
                let v = value.into_spec();
                &&& r == old(self).spec_set_result(key, v)
                &&& final(self).declared_types == old(self).declared_types
                &&& r is Ok && old(self).spec_write_changes(key, v) ==> {
                    &&& final(self).values@ == old(self).values@.update(key.0 as int, Some(v))
                    &&& final(self).revision == next_revision(old(self).revision)
                    &&& final(self).dirty_keys@ == dirty_after(old(self).dirty_keys@, key)
                }
                &&& !(r is Ok && old(self).spec_write_changes(key, v)) ==> {
                    &&& final(self).values@ == old(self).values@
                    &&& final(self).revision == old(self).revision
                    &&& final(self).dirty_keys@ == old(self).dirty_keys@
                }
            }),
    {
        self.set_value(key, value.into())
    }

    /// Whether a write happened after the given revision.
    pub fn changed_since(&self, revision: u64) -> (r: bool)
        ensures
            r == (self.revision > revision),
    {
        self.revision > revision
    }

    /// Forgets which keys were written.
    pub fn clear_dirty(&mut self)
        ensures
            final(self).values == old(self).values,
            final(self).declared_types == old(self).declared_types,
            final(self).revision == old(self).revision,
            final(self).dirty_keys@ == Seq::<BlackboardKeyId>::empty(),
    {
        self.dirty_keys.clear();
    }

    fn typed(&self, key: BlackboardKeyId, expected: BlackboardValueType) -> (r: Result<Option<&BlackboardValue>, BlackboardError>)
        ensures
            match self.spec_typed_get(key, expected) {
                Ok(Some(v)) => r matches Ok(Some(x)) && *x == v,
                Ok(None) => r matches Ok(None),
                Err(e) => r == Err::<Option<&BlackboardValue>, BlackboardError>(e),
            },
    {
        match self.get(key) {
            Err(e) => Err(e),
            Ok(None) => Ok(None),
            Ok(Some(v)) => {
                let actual = v.value_type();
                if actual == expected {
                    Ok(Some(v))
                } else {
                    Err(BlackboardError::TypeMismatch { expected, actual })
                }
            },
        }
    }

    /// The bit pattern of an `F32` key.
    pub fn get_f32_bits(&self, key: BlackboardKeyId) -> (r: Result<Option<u32>, BlackboardError>)
        ensures
            r == (match self.spec_typed_get(key, BlackboardValueType::F32) {
                Ok(Some(BlackboardValue::F32(v))) => Ok(Some(v)),
                Ok(_) => Ok(None),
                Err(e) => Err(e),
            }),
    {
        match self.typed(key, BlackboardValueType::F32) {
            Ok(Some(BlackboardValue::F32(v))) => Ok(Some(*v)),
            Ok(_) => Ok(None),
            Err(e) => Err(e),
        }
    }

    /// The value of an `I32` key.
    pub fn get_i32(&self, key: BlackboardKeyId) -> (r: Result<Option<i32>, BlackboardError>)
        ensures
            r == (match self.spec_typed_get(key, BlackboardValueType::I32) {
                Ok(Some(BlackboardValue::I32(v))) => Ok(Some(v)),
                Ok(_) => Ok(None),
                Err(e) => Err(e),
            }),
    {
        match self.typed(key, BlackboardValueType::I32) {
            Ok(Some(BlackboardValue::I32(v))) => Ok(Some(*v)),
            Ok(_) => Ok(None),
            Err(e) => Err(e),
        }
    }

    /// The value of a `Bool` key.
    pub fn get_bool(&self, key: BlackboardKeyId) -> (r: Result<Option<bool>, BlackboardError>)
        ensures
            r == (match self.spec_typed_get(key, BlackboardValueType::Bool) {
                Ok(Some(BlackboardValue::Bool(v))) => Ok(Some(v)),
                Ok(_) => Ok(None),
                Err(e) => Err(e),
            }),
    {
        match self.typed(key, BlackboardValueType::Bool) {
            Ok(Some(BlackboardValue::Bool(v))) => Ok(Some(*v)),
            Ok(_) => Ok(None),
            Err(e) => Err(e),
        }
    }

    /// The entity identifier of an `Entity` key.
    pub fn get_entity(&self, key: BlackboardKeyId) -> (r: Result<Option<u64>, BlackboardError>)
        ensures
            r == (match self.spec_typed_get(key, BlackboardValueType::Entity) {
                Ok(Some(BlackboardValue::Entity(v))) => Ok(Some(v)),
                Ok(_) => Ok(None),
                Err(e) => Err(e),
            }),
    {
        match self.typed(key, BlackboardValueType::Entity) {
            Ok(Some(BlackboardValue::Entity(v))) => Ok(Some(*v)),
            Ok(_) => Ok(None),
            Err(e) => Err(e),
        }
    }

    /// The component bit patterns of a `Vec2` key.
    pub fn get_vec2(&self, key: BlackboardKeyId) -> (r: Result<Option<(u32, u32)>, BlackboardError>)
        ensures
            r == (match self.spec_typed_get(key, BlackboardValueType::Vec2) {
                Ok(Some(BlackboardValue::Vec2(x, y))) => Ok(Some((x, y))),
                Ok(_) => Ok(None),
                Err(e) => Err(e),
            }),
    {
        match self.typed(key, BlackboardValueType::Vec2) {
            Ok(Some(BlackboardValue::Vec2(x, y))) => Ok(Some((*x, *y))),
            Ok(_) => Ok(None),
            Err(e) => Err(e),
        }
    }

    /// The component bit patterns of a `Vec3` key.
    pub fn get_vec3(&self, key: BlackboardKeyId) -> (r: Result<Option<(u32, u32, u32)>, BlackboardError>)
        ensures
            r == (match self.spec_typed_get(key, BlackboardValueType::Vec3) {
                Ok(Some(BlackboardValue::Vec3(x, y, z))) => Ok(Some((x, y, z))),
                Ok(_) => Ok(None),
                Err(e) => Err(e),
            }),
    {
        match self.typed(key, BlackboardValueType::Vec3) {
            Ok(Some(BlackboardValue::Vec3(x, y, z))) => Ok(Some((*x, *y, *z))),
            Ok(_) => Ok(None),
            Err(e) => Err(e),
        }
    }

    /// The text of a `String` key.
    pub fn get_string(&self, key: BlackboardKeyId) -> (r: Result<Option<&str>, BlackboardError>)
        ensures
            match self.spec_typed_get(key, BlackboardValueType::String) {
                Ok(Some(BlackboardValue::String(s))) => r matches Ok(Some(x)) && x@ == s@,
                Ok(_) => r matches Ok(None),
                Err(e) => r == Err::<Option<&str>, BlackboardError>(e),
            },
    {
        match self.typed(key, BlackboardValueType::String) {
            Ok(Some(BlackboardValue::String(s))) => Ok(Some(s.as_str())),
            Ok(_) => Ok(None),
            Err(e) => Err(e),
        }
    }
}

} // verus!
