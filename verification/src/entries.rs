//! What it means to read and to write an entry of a map.

use crate::errors::{DatabaseError, ErrType};
use crate::tables::{
    appended, entry, has_map, has_tables, is_about, is_map, is_newest, is_next, is_valid,
    newest_says, stays_valid, with_row, Cell, Table, Tables, INSERT_DATA,
};
use crate::values::{Language, TypeSignature, Value};
use vstd::prelude::*;

verus! {

/// The row that says that map `map` holds `value`, or nothing, under `key`.
pub open spec fn entry_row(map: i64, key: Seq<char>, value: Option<Seq<char>>) -> Seq<Cell> {
    seq![
        Cell::Integer(map),
        Cell::Text(key),
        match value {
            Some(text) => Cell::Text(text),
            None => Cell::Null,
        },
    ]
}

/// `after` is `before` after it was recorded that map `map` holds `value`, or nothing, under
/// `key`.
pub open spec fn recorded(
    before: Tables,
    after: Tables,
    map: i64,
    key: Seq<char>,
    value: Option<Seq<char>>,
) -> bool {
    appended(before, after, Table::Data, entry_row(map, key, value))
}

/// A request about `key` in the map `map_name` of contract `contract_name`.
pub struct Request<A, S, D> {
    pub contract_name: Seq<char>,
    pub map_name: Seq<char>,
    pub language: Language<A, S, D>,
    pub key: Value,
}

/// A request about `key` in the map `map_name` of contract `contract_name`.
pub open spec fn request<A, S, D>(
    contract_name: Seq<char>,
    map_name: Seq<char>,
    language: Language<A, S, D>,
    key: Value,
) -> Request<A, S, D> {
    Request { contract_name, map_name, language, key }
}

impl<A, S, D> Request<A, S, D> where
    A: Fn(&TypeSignature, &Value) -> bool,
    S: Fn(&Value) -> String,
    D: Fn(&String) -> Value,
 {
    /// The map has number `map` and these types.
    pub open spec fn finds(
        self,
        tables: Tables,
        map: i64,
        key_type: Seq<char>,
        value_type: Seq<char>,
    ) -> bool {
        is_map(tables, self.contract_name, self.map_name, map, key_type, value_type)
    }

    /// The map has number `map`; its key type admits the key, which is written `key_text`.
    pub open spec fn takes_key(self, tables: Tables, map: i64, key_text: Seq<char>) -> bool {
        &&& self.language.may_write(self.key, key_text)
        &&& exists|key_type: Seq<char>, value_type: Seq<char>|
            {
                &&& #[trigger] self.finds(tables, map, key_type, value_type)
                &&& self.language.may_admit(key_type, self.key, true)
            }
    }

    /// The map has number `map`, and its value type admits `value`.
    pub open spec fn admits_value(self, tables: Tables, value: Value, map: i64) -> bool {
        exists|key_type: Seq<char>, value_type: Seq<char>|
            {
                &&& #[trigger] self.finds(tables, map, key_type, value_type)
                &&& self.language.may_admit(value_type, value, true)
            }
    }

    /// `key_type` is the key type of the map, and the language says that it does not admit the
    /// key.
    pub open spec fn refuses_key(self, tables: Tables, key_type: Seq<char>) -> bool {
        &&& self.language.may_admit(key_type, self.key, false)
        &&& exists|map: i64, value_type: Seq<char>| self.finds(tables, map, key_type, value_type)
    }

    /// `value_type` is the value type of the map, and the language says that it does not admit
    /// `value`, though the key type admits the key.
    pub open spec fn refuses_value(
        self,
        tables: Tables,
        value: Value,
        value_type: Seq<char>,
    ) -> bool {
        &&& self.language.may_admit(value_type, value, false)
        &&& exists|map: i64, key_type: Seq<char>|
            {
                &&& #[trigger] self.finds(tables, map, key_type, value_type)
                &&& self.language.may_admit(key_type, self.key, true)
            }
    }

    /// The map takes the key, and what it holds under it reads as `value`.
    pub open spec fn reads(self, tables: Tables, value: Value) -> bool {
        exists|map: i64, key_text: Seq<char>|
            {
                &&& #[trigger] self.takes_key(tables, map, key_text)
                &&& reads_as(entry(tables, map, key_text), self.language, value)
            }
    }

    /// The map takes the key and `value`, and `after` is `before` after it was recorded that the
    /// map holds the one under the other.
    pub open spec fn writes(self, before: Tables, after: Tables, value: Value) -> bool {
        exists|map: i64, key_text: Seq<char>, value_text: Seq<char>|
            {
                &&& #[trigger] self.takes_key(before, map, key_text)
                &&& self.admits_value(before, value, map)
                &&& #[trigger] self.language.may_write(value, value_text)
                &&& recorded(before, after, map, key_text, Some(value_text))
            }
    }

    /// The map takes the key and `value`; what it holds under the key reads as `Void`, and
    /// `after` is `before` after it was recorded that it holds `value` there.
    pub open spec fn inserts(self, before: Tables, after: Tables, value: Value) -> bool {
        exists|map: i64, key_text: Seq<char>, value_text: Seq<char>|
            {
                &&& #[trigger] self.takes_key(before, map, key_text)
                &&& self.admits_value(before, value, map)
                &&& reads_as(entry(before, map, key_text), self.language, Value::Void)
                &&& #[trigger] self.language.may_write(value, value_text)
                &&& recorded(before, after, map, key_text, Some(value_text))
            }
    }

    /// The map takes the key and `value`, and what it holds under the key reads as something.
    pub open spec fn is_taken(self, tables: Tables, value: Value) -> bool {
        exists|map: i64, key_text: Seq<char>|
            {
                &&& #[trigger] self.takes_key(tables, map, key_text)
                &&& self.admits_value(tables, value, map)
                &&& is_present(entry(tables, map, key_text), self.language)
            }
    }

    /// The map takes the key; what it holds under it reads as something, and `after` is `before`
    /// after it was recorded that it holds nothing there.
    pub open spec fn deletes(self, before: Tables, after: Tables) -> bool {
        exists|map: i64, key_text: Seq<char>|
            {
                &&& #[trigger] self.takes_key(before, map, key_text)
                &&& is_present(entry(before, map, key_text), self.language)
                &&& recorded(before, after, map, key_text, None)
            }
    }

    /// The statement records that the map holds `value`, or nothing, under the key.
    pub open spec fn is_recorded_by(
        self,
        tables: Tables,
        value: Option<Value>,
        statement: (Seq<char>, Seq<Cell>),
    ) -> bool {
        exists|map: i64, key_text: Seq<char>, value_text: Option<Seq<char>>|
            {
                &&& #[trigger] self.takes_key(tables, map, key_text)
                &&& statement == (INSERT_DATA@, #[trigger] entry_row(map, key_text, value_text))
                &&& match (value, value_text) {
                    (Some(v), Some(text)) => self.language.may_write(v, text),
                    (None, None) => true,
                    _ => false,
                }
            }
    }

    /// `error` is the answer when there is no such map, or it does not take the key.
    pub open spec fn is_key_error(self, tables: Tables, error: DatabaseError) -> bool {
        match error.err_type {
            ErrType::UndefinedMap(name) => {
                &&& name@ == self.map_name
                &&& has_tables(tables) ==> !has_map(tables, self.contract_name, self.map_name)
            },
            ErrType::TypeError(key_type, refused) => {
                &&& refused == self.key
                &&& has_tables(tables) ==> self.refuses_key(tables, key_type@)
            },
            _ => false,
        }
    }

    /// `error` is the answer when the map takes the key but not `value`.
    pub open spec fn is_value_error(
        self,
        tables: Tables,
        value: Value,
        error: DatabaseError,
    ) -> bool {
        match error.err_type {
            ErrType::TypeError(value_type, refused) => {
                &&& refused == value
                &&& has_tables(tables) ==> self.refuses_value(tables, value, value_type@)
            },
            _ => false,
        }
    }
}

/// What is stored reads as a value other than `Void`.
pub open spec fn is_present<A, S, D>(
    stored: Option<Seq<char>>,
    language: Language<A, S, D>,
) -> bool where
    A: Fn(&TypeSignature, &Value) -> bool,
    S: Fn(&Value) -> String,
    D: Fn(&String) -> Value,
 {
    exists|value: Value| #[trigger] reads_as(stored, language, value) && !(value is Void)
}

/// What is stored reads as `value`: nothing as `Void`, a text as the language reads it.
pub open spec fn reads_as<A, S, D>(
    stored: Option<Seq<char>>,
    language: Language<A, S, D>,
    value: Value,
) -> bool where
    A: Fn(&TypeSignature, &Value) -> bool,
    S: Fn(&Value) -> String,
    D: Fn(&String) -> Value,
 {
    match stored {
        Some(text) => language.may_read(text, value),
        None => value is Void,
    }
}

/// The newest row decides what is stored.
pub(crate) proof fn lemma_newest_is_entry(
    tables: Tables,
    map: i64,
    key: Seq<char>,
    value: Option<Seq<char>>,
)
    requires
        newest_says(
            tables[Table::Data],
            map,
            key,
            match value {
                Some(text) => Cell::Text(text),
                None => Cell::Null,
            },
        ),
    ensures
        entry(tables, map, key) == value,
{
    let rows = tables[Table::Data];
    let cell = match value {
        Some(text) => Cell::Text(text),
        None => Cell::Null,
    };
    let number = choose|number: i64| #[trigger]
        is_newest(rows, number, map, key) && rows[number][2] == cell;
    let newest = choose|number: i64| is_newest(rows, number, map, key);
    assert(is_newest(rows, newest, map, key));
    assert(is_about(rows, newest, map, key) && is_about(rows, number, map, key));
    assert(newest == number);
}

/// Without a row about a key, nothing is stored under it.
pub(crate) proof fn lemma_no_row_is_no_entry(tables: Tables, map: i64, key: Seq<char>)
    requires
        forall|number: i64| !is_about(tables[Table::Data], number, map, key),
    ensures
        entry(tables, map, key) is None,
{
    if exists|number: i64| is_newest(tables[Table::Data], number, map, key) {
        let number = choose|number: i64| is_newest(tables[Table::Data], number, map, key);
        assert(is_about(tables[Table::Data], number, map, key));
    }
}

/// What was recorded is the newest row about its key.
pub(crate) proof fn lemma_recorded_is_newest(
    before: Tables,
    after: Tables,
    map: i64,
    key: Seq<char>,
    value: Option<Seq<char>>,
)
    requires
        recorded(before, after, map, key, value),
    ensures
        entry(after, map, key) == value,
{
    let row = entry_row(map, key, value);
    let number = choose|number: i64| #[trigger]
        is_next(before[Table::Data], number) && after == with_row(
            before,
            Table::Data,
            number,
            row,
        );
    let rows = after[Table::Data];
    assert(is_about(rows, number, map, key));
    assert forall|other: i64| #[trigger] is_about(rows, other, map, key) implies other
        <= number by {
        if other != number {
            assert(before[Table::Data].contains_key(other));
        }
    }
    assert(is_newest(rows, number, map, key));
    lemma_newest_is_entry(after, map, key, value);
}

/// What was recorded changes nothing under other keys and in other maps.
pub(crate) proof fn lemma_recorded_elsewhere(
    before: Tables,
    after: Tables,
    map: i64,
    key: Seq<char>,
    value: Option<Seq<char>>,
    other_map: i64,
    other_key: Seq<char>,
)
    requires
        recorded(before, after, map, key, value),
        (other_map, other_key) != (map, key),
    ensures
        entry(after, other_map, other_key) == entry(before, other_map, other_key),
{
    let row = entry_row(map, key, value);
    let number = choose|number: i64| #[trigger]
        is_next(before[Table::Data], number) && after == with_row(
            before,
            Table::Data,
            number,
            row,
        );
    let old_rows = before[Table::Data];
    let rows = after[Table::Data];
    assert(!old_rows.contains_key(number));
    assert forall|n: i64|
        is_about(rows, n, other_map, other_key) == #[trigger] is_about(
            old_rows,
            n,
            other_map,
            other_key,
        ) by {
        if n == number {
            assert(rows[n] == row);
        }
    }
    assert forall|n: i64|
        is_newest(rows, n, other_map, other_key) == #[trigger] is_newest(
            old_rows,
            n,
            other_map,
            other_key,
        ) by {
        if is_newest(rows, n, other_map, other_key) {
            assert forall|o: i64| #[trigger] is_about(old_rows, o, other_map, other_key) implies o
                <= n by {
                assert(is_about(rows, o, other_map, other_key));
            }
            assert(is_about(old_rows, n, other_map, other_key));
        }
        if is_newest(old_rows, n, other_map, other_key) {
            assert forall|o: i64| #[trigger] is_about(rows, o, other_map, other_key) implies o
                <= n by {
                assert(is_about(old_rows, o, other_map, other_key));
            }
            assert(is_about(rows, n, other_map, other_key));
        }
    }
    if exists|n: i64| is_newest(old_rows, n, other_map, other_key) {
        let n = choose|n: i64| is_newest(old_rows, n, other_map, other_key);
        assert(is_newest(rows, n, other_map, other_key));
        let m = choose|m: i64| is_newest(rows, m, other_map, other_key);
        assert(is_newest(rows, m, other_map, other_key));
        assert(is_newest(old_rows, m, other_map, other_key));
        assert(is_about(old_rows, m, other_map, other_key) && is_about(
            old_rows,
            n,
            other_map,
            other_key,
        ));
        assert(m == n);
        assert(n != number);
    } else {
        assert(forall|n: i64| !is_newest(rows, n, other_map, other_key)) by {
            assert forall|n: i64| !is_newest(rows, n, other_map, other_key) by {
                assert(!is_newest(old_rows, n, other_map, other_key));
            }
        }
    }
}

/// Recording something of an existing map keeps the database valid.
pub(crate) proof fn lemma_recorded_is_valid(
    before: Tables,
    after: Tables,
    map: i64,
    key: Seq<char>,
    value: Option<Seq<char>>,
)
    requires
        has_tables(before),
        before[Table::Maps].contains_key(map),
        recorded(before, after, map, key, value),
    ensures
        stays_valid(before, after),
{
    let row = entry_row(map, key, value);
    let number = choose|number: i64| #[trigger]
        is_next(before[Table::Data], number) && after == with_row(
            before,
            Table::Data,
            number,
            row,
        );
    assert forall|n: i64|
        is_valid(before) && #[trigger] after[Table::Data].contains_key(n) implies {
        &&& after[Table::Data][n][0] matches Cell::Integer(m)
        &&& after[Table::Maps].contains_key(m)
    } by {
        if n == number {
            assert(after[Table::Data][n] == row);
        } else {
            assert(before[Table::Data].contains_key(n));
        }
    }
}

} // verus!
