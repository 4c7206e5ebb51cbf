//! The SNMP input specification: objects as defined in MIB modules, by id.

use vstd::prelude::*;

use crate::common::strmap::StrMap;
use super::index::EntrySpec;
use super::oid::Oid;
use super::scalar::ScalarSpec;

verus! {

/// An object id identifies a specific version of an object as defined in a
/// module. It differs from the OID, since subsequent module versions can
/// give distinct, possibly conflicting, definitions for the same OID.
pub struct ObjectId(pub String);

impl View for ObjectId {
    type V = Seq<char>;

    open spec fn view(&self) -> Seq<char> {
        self.0@
    }
}

/// The kind of a defined object.
#[derive(Clone, Copy, PartialEq, Eq, Structural)]
pub enum ObjectType {
    /// MODULE-IDENTITY
    Module,
    /// OBJECT-TYPE with entry syntax
    Table,
    /// OBJECT-TYPE with scalar syntax
    Scalar,
    /// NOTIFICATION-TYPE or TRAP-TYPE
    Event,
}

/// A defined object.
pub struct ObjectSpec {
    pub module: Option<ObjectId>,
    pub oid: Oid,
    pub name: String,
    pub typ: ObjectType,
    pub context_group: Option<String>,
}

/// A MIB module.
pub struct ModuleSpec {
    pub name: String,
    pub organization: String,
    pub last_updated: String,
}

/// A notification, with the objects it carries.
pub struct EventSpec {
    pub variables: Vec<ObjectId>,
}

/// The input specification: objects by id, and for each kind of object
/// its details.
pub struct Input {
    pub objects: StrMap<ObjectSpec>,
    pub modules: StrMap<ModuleSpec>,
    pub tables: StrMap<EntrySpec>,
    pub scalars: StrMap<ScalarSpec>,
    pub events: StrMap<EventSpec>,
}

/// Why an id does not name an object of the expected kind.
pub enum InputError {
    /// No object of this id is defined (of the kind looked up).
    Missing(String),
    /// A table id that names something other than a table.
    InvalidTableId(String),
    /// A field id that names something other than a scalar.
    InvalidFieldId(String),
    /// Not a field.
    InvalidField(String),
    /// Not a table.
    InvalidTable(String),
}

/// The id under which tables without an index are requested.
pub open spec fn no_index_id() -> Seq<char> {
    "noIndex"@
}

/// The type of the object of an id, if it is defined.
pub open spec fn object_type(input: Input, id: Seq<char>) -> Option<ObjectType> {
    if input.objects@.contains_key(id) {
        Some(input.objects@[id].typ)
    } else {
        None
    }
}

impl ObjectId {
    /// A copy of this id.
    pub fn copy(&self) -> (r: ObjectId)
        ensures
            r@ == self@,
    {
        ObjectId(self.0.clone())
    }

    /// Whether two ids are equal.
    pub fn same(&self, other: &ObjectId) -> (r: bool)
        ensures
            r == (self@ == other@),
    {
        self.0 == other.0
    }

    /// Takes `noIndex`, a valid table id but not an object id, as no
    /// object.
    pub fn handle_noindex(self) -> (r: Option<ObjectId>)
        ensures
            self@ == no_index_id() ==> r is None,
            self@ != no_index_id() ==> (r matches Some(o) && o@ == self@),
    {
        let no_index = String::from_str("noIndex");
        if self.0 == no_index {
            None
        } else {
            Some(self)
        }
    }

    /// The table object that a data table id names, `None` for `noIndex`;
    /// an error for an id of no object or of an object that is no table.
    pub fn from_table_id(id: &String, input: &Input) -> (r: Result<Option<ObjectId>, InputError>)
        ensures
            id@ == no_index_id() ==> r matches Ok(None),
            id@ != no_index_id() ==> match object_type(*input, id@) {
                None => r matches Err(InputError::Missing(m)) && m@ == id@,
                Some(ObjectType::Table) => r matches Ok(Some(o)) && o@ == id@,
                Some(_) => r matches Err(InputError::InvalidTableId(m)) && m@ == id@,
            },
    {
        let no_index = String::from_str("noIndex");
        if *id == no_index {
            return Ok(None);
        }
        match input.objects.get(id) {
            None => Err(InputError::Missing(id.clone())),
            Some(obj) => match obj.typ {
                ObjectType::Table => Ok(Some(ObjectId(id.clone()))),
                _ => Err(InputError::InvalidTableId(id.clone())),
            },
        }
    }

    /// The scalar object that a data field id names; an error for an id of
    /// no object or of an object that is no scalar.
    pub fn from_field_id(id: &String, input: &Input) -> (r: Result<ObjectId, InputError>)
        ensures
            match object_type(*input, id@) {
                None => r matches Err(InputError::Missing(m)) && m@ == id@,
                Some(ObjectType::Scalar) => r matches Ok(o) && o@ == id@,
                Some(_) => r matches Err(InputError::InvalidFieldId(m)) && m@ == id@,
            },
    {
        match input.objects.get(id) {
            None => Err(InputError::Missing(id.clone())),
            Some(obj) => match obj.typ {
                ObjectType::Scalar => Ok(ObjectId(id.clone())),
                _ => Err(InputError::InvalidFieldId(id.clone())),
            },
        }
    }

    /// The data table id of this object, which must be a table.
    pub fn to_table_id(&self, input: &Input) -> (r: Result<String, InputError>)
        ensures
            match object_type(*input, self@) {
                None => r matches Err(InputError::Missing(m)) && m@ == self@,
                Some(ObjectType::Table) => r matches Ok(s) && s@ == self@,
                Some(_) => r matches Err(InputError::InvalidTable(m)) && m@ == self@,
            },
    {
        match input.objects.get(&self.0) {
            None => Err(InputError::Missing(self.0.clone())),
            Some(obj) => match obj.typ {
                ObjectType::Table => Ok(self.0.clone()),
                _ => Err(InputError::InvalidTable(self.0.clone())),
            },
        }
    }

    /// The data field id of this object, which must be a scalar.
    pub fn to_field_id(&self, input: &Input) -> (r: Result<String, InputError>)
        ensures
            match object_type(*input, self@) {
                None => r matches Err(InputError::Missing(m)) && m@ == self@,
                Some(ObjectType::Scalar) => r matches Ok(s) && s@ == self@,
                Some(_) => r matches Err(InputError::InvalidField(m)) && m@ == self@,
            },
    {
        match input.objects.get(&self.0) {
            None => Err(InputError::Missing(self.0.clone())),
            Some(obj) => match obj.typ {
                ObjectType::Scalar => Ok(self.0.clone()),
                _ => Err(InputError::InvalidField(self.0.clone())),
            },
        }
    }
}

} // verus!
