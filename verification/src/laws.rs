//! What holds of the store as a whole.

use crate::blocks::{
    block_row, extends, first_blocks, is_chain, is_simulated, is_tip_at, lemma_mined_tip, mined,
    with_block, SIMMED_BLOCK_COUNT, SIMMED_BLOCK_TIME,
};
use crate::connection::{
    initialized, interrupted, lacks_blocks, lemma_no_first_blocks, with_first_blocks, with_tables,
};
use crate::database::{ContractDatabase, ContractDatabaseTransacter};
use crate::entries::{
    entry_row, is_present, lemma_no_row_is_no_entry, lemma_recorded_elsewhere,
    lemma_recorded_is_newest, reads_as, recorded, Request,
};
use crate::sqlite::{empty_database, is_described};
use crate::tables::{
    are_among, contract_row, entry, has_contract, has_map, has_tables, holds, inserted, is_about,
    is_contract, is_map, is_next, is_tip, is_valid, is_whole, keeps_rows, map_row, with_row, Cell,
    Table, Tables,
};
use crate::values::{TypeSignature, Value};
use vstd::prelude::*;

verus! {

/// What is recorded of a key is what the map holds under it, and nothing else changes: no other
/// entry, and no other table.
pub proof fn law_recording_changes_one_entry(
    before: Tables,
    after: Tables,
    map: i64,
    key: Seq<char>,
    value: Option<Seq<char>>,
)
    requires
        recorded(before, after, map, key, value),
    ensures
        entry(after, map, key) == value,
        forall|other_map: i64, other_key: Seq<char>|
            (other_map, other_key) != (map, key) ==> #[trigger] entry(after, other_map, other_key)
                == entry(before, other_map, other_key),
        forall|table: Table| #[trigger]
            after.contains_key(table) <==> before.contains_key(table) || table == Table::Data,
        forall|table: Table| table != Table::Data ==> #[trigger] after[table] == before[table],
{
    lemma_recorded_is_newest(before, after, map, key, value);
    assert forall|other_map: i64, other_key: Seq<char>|
        (other_map, other_key) != (map, key) implies #[trigger] entry(after, other_map, other_key)
        == entry(before, other_map, other_key) by {
        lemma_recorded_elsewhere(before, after, map, key, value, other_map, other_key);
    }
    let number = choose|number: i64| #[trigger]
        is_next(before[Table::Data], number) && after == with_row(
            before,
            Table::Data,
            number,
            entry_row(map, key, value),
        );
}

/// No two maps have the same name, whatever contracts they belong to.
pub proof fn law_map_names_are_unique(
    tables: Tables,
    contract_a: Seq<char>,
    contract_b: Seq<char>,
    map_name: Seq<char>,
    number_a: i64,
    number_b: i64,
    key_type_a: Seq<char>,
    key_type_b: Seq<char>,
    value_type_a: Seq<char>,
    value_type_b: Seq<char>,
)
    requires
        is_valid(tables),
        is_map(tables, contract_a, map_name, number_a, key_type_a, value_type_a),
        is_map(tables, contract_b, map_name, number_b, key_type_b, value_type_b),
    ensures
        contract_a == contract_b,
        number_a == number_b,
        key_type_a == key_type_b,
        value_type_a == value_type_b,
{
    let rows = tables[Table::Maps];
    let row_a = map_row(contract_a, map_name, key_type_a, value_type_a);
    let row_b = map_row(contract_b, map_name, key_type_b, value_type_b);
    assert(rows.contains_key(number_a) && rows.contains_key(number_b));
    assert(rows[number_a] == row_a && rows[number_b] == row_b);
    assert(row_a[1] == row_b[1]);
    assert(number_a == number_b);
    assert(row_a[0] == row_b[0] && row_a[2] == row_b[2] && row_a[3] == row_b[3]);
}

/// A map name that is in use cannot be given to a map again, of this or of another contract.
pub proof fn law_used_map_name_is_refused(
    before: Tables,
    after: Tables,
    owner: Seq<char>,
    contract_name: Seq<char>,
    map_name: Seq<char>,
    key_type: Seq<char>,
    value_type: Seq<char>,
)
    requires
        has_map(before, owner, map_name),
    ensures
        !inserted(
            before,
            after,
            Table::Maps,
            map_row(contract_name, map_name, key_type, value_type),
        ),
{
    let row = map_row(contract_name, map_name, key_type, value_type);
    assert(row[1] == Cell::Text(map_name));
    assert(holds(before[Table::Maps], 1, row[1]));
}

/// A new map is there under a new number, with the types it was given, and holds nothing. All
/// other maps stay what they were.
pub proof fn law_new_map_is_empty(
    before: Tables,
    after: Tables,
    contract_name: Seq<char>,
    map_name: Seq<char>,
    key_type: Seq<char>,
    value_type: Seq<char>,
) -> (number: i64)
    requires
        is_valid(before),
        inserted(
            before,
            after,
            Table::Maps,
            map_row(contract_name, map_name, key_type, value_type),
        ),
    ensures
        is_map(after, contract_name, map_name, number, key_type, value_type),
        !before[Table::Maps].contains_key(number),
        forall|key: Seq<char>| #[trigger] entry(after, number, key) is None,
        forall|c: Seq<char>, m: Seq<char>, n: i64, k: Seq<char>, v: Seq<char>|
            n != number ==> (#[trigger] is_map(after, c, m, n, k, v) <==> is_map(
                before,
                c,
                m,
                n,
                k,
                v,
            )),
        forall|table: Table| table != Table::Maps ==> #[trigger] after[table] == before[table],
        forall|table: Table| #[trigger] after.contains_key(table) <==> before.contains_key(table),
{
    let row = map_row(contract_name, map_name, key_type, value_type);
    let number = choose|number: i64| #[trigger]
        is_next(before[Table::Maps], number) && after == with_row(
            before,
            Table::Maps,
            number,
            row,
        );
    assert(!before[Table::Maps].contains_key(number));
    assert forall|key: Seq<char>| #[trigger] entry(after, number, key) is None by {
        assert forall|n: i64| !is_about(after[Table::Data], n, number, key) by {
            if is_about(after[Table::Data], n, number, key) {
                assert(before[Table::Data].contains_key(n));
            }
        }
        lemma_no_row_is_no_entry(after, number, key);
    }
    number
}

/// The map that a request is about has one number.
pub(crate) proof fn lemma_request_has_one_map<A, S, D>(
    asked: Request<A, S, D>,
    tables: Tables,
    map_a: i64,
    map_b: i64,
    text_a: Seq<char>,
    text_b: Seq<char>,
) where
    A: Fn(&TypeSignature, &Value) -> bool,
    S: Fn(&Value) -> String,
    D: Fn(&String) -> Value,

    requires
        is_valid(tables),
        asked.takes_key(tables, map_a, text_a),
        asked.takes_key(tables, map_b, text_b),
    ensures
        map_a == map_b,
{
    let (key_a, value_a) = choose|key_type: Seq<char>, value_type: Seq<char>|
        {
            &&& #[trigger] asked.finds(tables, map_a, key_type, value_type)
            &&& asked.language.may_admit(key_type, asked.key, true)
        };
    let (key_b, value_b) = choose|key_type: Seq<char>, value_type: Seq<char>|
        {
            &&& #[trigger] asked.finds(tables, map_b, key_type, value_type)
            &&& asked.language.may_admit(key_type, asked.key, true)
        };
    law_map_names_are_unique(
        tables,
        asked.contract_name,
        asked.contract_name,
        asked.map_name,
        map_a,
        map_b,
        key_a,
        key_b,
        value_a,
        value_b,
    );
}

/// Recording an entry changes no map, so a request is taken as before.
pub(crate) proof fn lemma_request_is_taken_as_before<A, S, D>(
    asked: Request<A, S, D>,
    before: Tables,
    after: Tables,
    map: i64,
    text: Seq<char>,
) where
    A: Fn(&TypeSignature, &Value) -> bool,
    S: Fn(&Value) -> String,
    D: Fn(&String) -> Value,

    requires
        after[Table::Maps] == before[Table::Maps],
    ensures
        asked.takes_key(after, map, text) == asked.takes_key(before, map, text),
{
    assert forall|k: Seq<char>, v: Seq<char>| #[trigger]
        asked.finds(after, map, k, v) == asked.finds(before, map, k, v) by {}
    if asked.takes_key(after, map, text) {
        let (k, v) = choose|k: Seq<char>, v: Seq<char>|
            {
                &&& #[trigger] asked.finds(after, map, k, v)
                &&& asked.language.may_admit(k, asked.key, true)
            };
        assert(asked.finds(before, map, k, v));
    }
    if asked.takes_key(before, map, text) {
        let (k, v) = choose|k: Seq<char>, v: Seq<char>|
            {
                &&& #[trigger] asked.finds(before, map, k, v)
                &&& asked.language.may_admit(k, asked.key, true)
            };
        assert(asked.finds(after, map, k, v));
    }
}

/// What a map is made to hold under a key is what is then read under that key: if the language
/// writes the key in one way and reads back what it wrote for the value, reading gives the value.
pub proof fn law_read_gives_what_was_written<A, S, D>(
    asked: Request<A, S, D>,
    before: Tables,
    after: Tables,
    value: Value,
    read: Value,
) where
    A: Fn(&TypeSignature, &Value) -> bool,
    S: Fn(&Value) -> String,
    D: Fn(&String) -> Value,

    requires
        is_valid(before),
        asked.writes(before, after, value),
        asked.language.writes_one_way(asked.key),
        asked.language.reads_back(value),
        asked.reads(after, read),
    ensures
        read == value,
{
    let (map, key_text, value_text) = choose|map: i64, key_text: Seq<char>, value_text: Seq<char>|
        {
            &&& #[trigger] asked.takes_key(before, map, key_text)
            &&& asked.admits_value(before, value, map)
            &&& #[trigger] asked.language.may_write(value, value_text)
            &&& recorded(before, after, map, key_text, Some(value_text))
        };
    law_recording_changes_one_entry(before, after, map, key_text, Some(value_text));
    let (found_map, found_text) = choose|map: i64, key_text: Seq<char>|
        {
            &&& #[trigger] asked.takes_key(after, map, key_text)
            &&& reads_as(entry(after, map, key_text), asked.language, read)
        };
    lemma_request_is_taken_as_before(asked, before, after, found_map, found_text);
    lemma_request_has_one_map(asked, before, map, found_map, key_text, found_text);
    assert(asked.language.may_write(asked.key, key_text));
    assert(asked.language.may_write(asked.key, found_text));
    assert(found_text == key_text);
    assert(asked.language.may_read(value_text, read));
}

/// Two requests are about different entries: about different maps, or about keys that are never
/// written the same.
pub open spec fn are_apart<A, S, D>(a: Request<A, S, D>, b: Request<A, S, D>) -> bool where
    A: Fn(&TypeSignature, &Value) -> bool,
    S: Fn(&Value) -> String,
    D: Fn(&String) -> Value,
 {
    ||| a.map_name != b.map_name
    ||| forall|text: Seq<char>| #[trigger]
        a.language.may_write(a.key, text) ==> !b.language.may_write(b.key, text)
}

/// What is recorded of one request is not read by another.
pub(crate) proof fn lemma_recorded_is_not_read_elsewhere<A, S, D>(
    asked: Request<A, S, D>,
    other: Request<A, S, D>,
    before: Tables,
    after: Tables,
    map: i64,
    key_text: Seq<char>,
    value: Option<Seq<char>>,
    read: Value,
) where
    A: Fn(&TypeSignature, &Value) -> bool,
    S: Fn(&Value) -> String,
    D: Fn(&String) -> Value,

    requires
        asked.takes_key(before, map, key_text),
        recorded(before, after, map, key_text, value),
        are_apart(asked, other),
    ensures
        other.reads(after, read) <==> other.reads(before, read),
{
    law_recording_changes_one_entry(before, after, map, key_text, value);
    assert forall|m: i64, text: Seq<char>|
        other.takes_key(after, m, text) == #[trigger] other.takes_key(before, m, text) by {
        lemma_request_is_taken_as_before(other, before, after, m, text);
    }
    assert forall|m: i64, text: Seq<char>| #[trigger]
        other.takes_key(before, m, text) implies entry(after, m, text) == entry(
        before,
        m,
        text,
    ) by {
        if m == map && text == key_text {
            let (k, v) = choose|k: Seq<char>, v: Seq<char>|
                {
                    &&& #[trigger] other.finds(before, m, k, v)
                    &&& other.language.may_admit(k, other.key, true)
                };
            let (k2, v2) = choose|k: Seq<char>, v: Seq<char>|
                {
                    &&& #[trigger] asked.finds(before, map, k, v)
                    &&& asked.language.may_admit(k, asked.key, true)
                };
            let row = map_row(other.contract_name, other.map_name, k, v);
            let row2 = map_row(asked.contract_name, asked.map_name, k2, v2);
            assert(row == row2);
            assert(row[1] == row2[1]);
            assert(asked.language.may_write(asked.key, text));
            assert(other.language.may_write(other.key, text));
            assert(false);
        }
    }
    if other.reads(after, read) {
        let (m, text) = choose|m: i64, text: Seq<char>|
            {
                &&& #[trigger] other.takes_key(after, m, text)
                &&& reads_as(entry(after, m, text), other.language, read)
            };
        assert(other.takes_key(before, m, text));
    }
    if other.reads(before, read) {
        let (m, text) = choose|m: i64, text: Seq<char>|
            {
                &&& #[trigger] other.takes_key(before, m, text)
                &&& reads_as(entry(before, m, text), other.language, read)
            };
        assert(other.takes_key(after, m, text));
    }
}

/// Making a map hold something under a key changes nothing that is read from another map, or
/// under a key that is written differently.
pub proof fn law_write_is_not_read_elsewhere<A, S, D>(
    asked: Request<A, S, D>,
    other: Request<A, S, D>,
    before: Tables,
    after: Tables,
    value: Value,
    read: Value,
) where
    A: Fn(&TypeSignature, &Value) -> bool,
    S: Fn(&Value) -> String,
    D: Fn(&String) -> Value,

    requires
        asked.writes(before, after, value),
        are_apart(asked, other),
    ensures
        other.reads(after, read) <==> other.reads(before, read),
{
    let (map, key_text, value_text) = choose|map: i64, key_text: Seq<char>, value_text: Seq<char>|
        {
            &&& #[trigger] asked.takes_key(before, map, key_text)
            &&& asked.admits_value(before, value, map)
            &&& #[trigger] asked.language.may_write(value, value_text)
            &&& recorded(before, after, map, key_text, Some(value_text))
        };
    lemma_recorded_is_not_read_elsewhere(
        asked,
        other,
        before,
        after,
        map,
        key_text,
        Some(value_text),
        read,
    );
}

/// Deleting what a map holds under a key changes nothing that is read from another map, or under
/// a key that is written differently.
pub proof fn law_deletion_is_not_read_elsewhere<A, S, D>(
    asked: Request<A, S, D>,
    other: Request<A, S, D>,
    before: Tables,
    after: Tables,
    read: Value,
) where
    A: Fn(&TypeSignature, &Value) -> bool,
    S: Fn(&Value) -> String,
    D: Fn(&String) -> Value,

    requires
        asked.deletes(before, after),
        are_apart(asked, other),
    ensures
        other.reads(after, read) <==> other.reads(before, read),
{
    let (map, key_text) = choose|map: i64, key_text: Seq<char>|
        {
            &&& #[trigger] asked.takes_key(before, map, key_text)
            &&& is_present(entry(before, map, key_text), asked.language)
            &&& recorded(before, after, map, key_text, None)
        };
    lemma_recorded_is_not_read_elsewhere(asked, other, before, after, map, key_text, None, read);
}

/// An insertion that is made is a write.
pub proof fn law_insertion_writes<A, S, D>(
    asked: Request<A, S, D>,
    before: Tables,
    after: Tables,
    value: Value,
) where
    A: Fn(&TypeSignature, &Value) -> bool,
    S: Fn(&Value) -> String,
    D: Fn(&String) -> Value,

    requires
        asked.inserts(before, after, value),
    ensures
        asked.writes(before, after, value),
{
    let (map, key_text, value_text) = choose|map: i64, key_text: Seq<char>, value_text: Seq<char>|
        {
            &&& #[trigger] asked.takes_key(before, map, key_text)
            &&& asked.admits_value(before, value, map)
            &&& reads_as(entry(before, map, key_text), asked.language, Value::Void)
            &&& #[trigger] asked.language.may_write(value, value_text)
            &&& recorded(before, after, map, key_text, Some(value_text))
        };
    assert(asked.takes_key(before, map, key_text));
    assert(asked.language.may_write(value, value_text));
}

/// What an entry reads as decides between an insertion and a refusal: if it reads as one value, a
/// key is never both free and taken.
pub proof fn law_taken_key_is_not_inserted<A, S, D>(
    asked: Request<A, S, D>,
    before: Tables,
    after: Tables,
    value: Value,
    held: Value,
) where
    A: Fn(&TypeSignature, &Value) -> bool,
    S: Fn(&Value) -> String,
    D: Fn(&String) -> Value,

    requires
        forall|read: Value| #[trigger] asked.reads(before, read) ==> read == held,
    ensures
        !(held is Void) ==> !asked.inserts(before, after, value),
        held is Void ==> !asked.is_taken(before, value),
{
    if asked.inserts(before, after, value) {
        let (map, key_text, value_text) = choose|
            map: i64,
            key_text: Seq<char>,
            value_text: Seq<char>,
        |
            {
                &&& #[trigger] asked.takes_key(before, map, key_text)
                &&& asked.admits_value(before, value, map)
                &&& reads_as(entry(before, map, key_text), asked.language, Value::Void)
                &&& #[trigger] asked.language.may_write(value, value_text)
                &&& recorded(before, after, map, key_text, Some(value_text))
            };
        assert(asked.takes_key(before, map, key_text));
        assert(asked.reads(before, Value::Void));
    }
    if asked.is_taken(before, value) {
        let (map, key_text) = choose|map: i64, key_text: Seq<char>|
            {
                &&& #[trigger] asked.takes_key(before, map, key_text)
                &&& asked.admits_value(before, value, map)
                &&& is_present(entry(before, map, key_text), asked.language)
            };
        let present = choose|present: Value| #[trigger]
            reads_as(entry(before, map, key_text), asked.language, present) && !(present is Void);
        assert(asked.takes_key(before, map, key_text));
        assert(asked.reads(before, present));
    }
}

/// What was written cannot be inserted over: after a map was made to hold a value other than
/// `Void` under a key, an insertion under that key changes nothing.
pub proof fn law_written_key_is_not_inserted<A, S, D>(
    asked: Request<A, S, D>,
    before: Tables,
    after: Tables,
    later: Tables,
    value: Value,
    other_value: Value,
) where
    A: Fn(&TypeSignature, &Value) -> bool,
    S: Fn(&Value) -> String,
    D: Fn(&String) -> Value,

    requires
        is_valid(before),
        asked.writes(before, after, value),
        asked.language.writes_one_way(asked.key),
        asked.language.reads_back(value),
        !(value is Void),
    ensures
        !asked.inserts(after, later, other_value),
{
    if asked.inserts(after, later, other_value) {
        let (map, key_text, value_text) = choose|
            map: i64,
            key_text: Seq<char>,
            value_text: Seq<char>,
        |
            {
                &&& #[trigger] asked.takes_key(after, map, key_text)
                &&& asked.admits_value(after, other_value, map)
                &&& reads_as(entry(after, map, key_text), asked.language, Value::Void)
                &&& #[trigger] asked.language.may_write(other_value, value_text)
                &&& recorded(after, later, map, key_text, Some(value_text))
            };
        assert(asked.takes_key(after, map, key_text));
        assert(asked.reads(after, Value::Void));
        law_read_gives_what_was_written(asked, before, after, value, Value::Void);
    }
}

/// What was deleted reads as `Void`, cannot be deleted again, and is free for an insertion.
pub proof fn law_deleted_key_is_absent<A, S, D>(
    asked: Request<A, S, D>,
    before: Tables,
    after: Tables,
    later: Tables,
    read: Value,
    value: Value,
) where
    A: Fn(&TypeSignature, &Value) -> bool,
    S: Fn(&Value) -> String,
    D: Fn(&String) -> Value,

    requires
        is_valid(before),
        asked.deletes(before, after),
        asked.language.writes_one_way(asked.key),
    ensures
        asked.reads(after, read) ==> read is Void,
        !asked.deletes(after, later),
        !asked.is_taken(after, value),
{
    let (map, key_text) = choose|map: i64, key_text: Seq<char>|
        {
            &&& #[trigger] asked.takes_key(before, map, key_text)
            &&& is_present(entry(before, map, key_text), asked.language)
            &&& recorded(before, after, map, key_text, None)
        };
    law_recording_changes_one_entry(before, after, map, key_text, None);
    assert(asked.language.may_write(asked.key, key_text));
    assert forall|m: i64, text: Seq<char>| #[trigger]
        asked.takes_key(after, m, text) implies entry(after, m, text) is None by {
        lemma_request_is_taken_as_before(asked, before, after, m, text);
        lemma_request_has_one_map(asked, before, map, m, key_text, text);
        assert(asked.language.may_write(asked.key, text));
    }
    if asked.reads(after, read) {
        let (m, text) = choose|m: i64, text: Seq<char>|
            {
                &&& #[trigger] asked.takes_key(after, m, text)
                &&& reads_as(entry(after, m, text), asked.language, read)
            };
        assert(entry(after, m, text) is None);
    }
    if asked.deletes(after, later) {
        let (m, text) = choose|m: i64, text: Seq<char>|
            {
                &&& #[trigger] asked.takes_key(after, m, text)
                &&& is_present(entry(after, m, text), asked.language)
                &&& recorded(after, later, m, text, None)
            };
        assert(entry(after, m, text) is None);
        let present = choose|present: Value| #[trigger]
            reads_as(entry(after, m, text), asked.language, present) && !(present is Void);
        assert(reads_as(entry(after, m, text), asked.language, present));
    }
    if asked.is_taken(after, value) {
        let (m, text) = choose|m: i64, text: Seq<char>|
            {
                &&& #[trigger] asked.takes_key(after, m, text)
                &&& asked.admits_value(after, value, m)
                &&& is_present(entry(after, m, text), asked.language)
            };
        assert(entry(after, m, text) is None);
    }
}

/// No two contracts have the same name.
pub proof fn law_contract_names_are_unique(
    tables: Tables,
    contract_name: Seq<char>,
    data_a: Seq<char>,
    data_b: Seq<char>,
)
    requires
        is_valid(tables),
        is_contract(tables, contract_name, data_a),
        is_contract(tables, contract_name, data_b),
    ensures
        data_a == data_b,
{
    let rows = tables[Table::Contracts];
    let a = choose|number: i64|
        {
            &&& #[trigger] rows.contains_key(number)
            &&& rows[number] == contract_row(contract_name, data_a)
        };
    let b = choose|number: i64|
        {
            &&& #[trigger] rows.contains_key(number)
            &&& rows[number] == contract_row(contract_name, data_b)
        };
    assert(contract_row(contract_name, data_a)[0] == contract_row(contract_name, data_b)[0]);
    assert(a == b);
    assert(contract_row(contract_name, data_a)[1] == contract_row(contract_name, data_b)[1]);
}

/// A contract that was stored is there under its name. All other contracts, and all else, stay
/// what they were.
pub proof fn law_stored_contract_is_found(
    before: Tables,
    after: Tables,
    contract_name: Seq<char>,
    data: Seq<char>,
)
    requires
        inserted(before, after, Table::Contracts, contract_row(contract_name, data)),
    ensures
        is_contract(after, contract_name, data),
        has_contract(after, contract_name),
        !has_contract(before, contract_name),
        forall|name: Seq<char>, d: Seq<char>|
            name != contract_name ==> (#[trigger] is_contract(after, name, d) <==> is_contract(
                before,
                name,
                d,
            )),
        forall|table: Table|
            table != Table::Contracts ==> #[trigger] after[table] == before[table],
        forall|table: Table| #[trigger]
            after.contains_key(table) <==> before.contains_key(table) || table == Table::Contracts,
{
    let row = contract_row(contract_name, data);
    let number = choose|number: i64| #[trigger]
        is_next(before[Table::Contracts], number) && after == with_row(
            before,
            Table::Contracts,
            number,
            row,
        );
    let old_rows = before[Table::Contracts];
    let rows = after[Table::Contracts];
    assert(rows.contains_key(number) && rows[number] == row);
    assert(row[0] == Cell::Text(contract_name));
    assert(!old_rows.contains_key(number));
    assert forall|name: Seq<char>, d: Seq<char>| name != contract_name implies (
    #[trigger] is_contract(after, name, d) <==> is_contract(before, name, d)) by {
        let sought = contract_row(name, d);
        assert(sought[0] == Cell::Text(name));
        if is_contract(after, name, d) {
            let n = choose|n: i64|
                {
                    &&& #[trigger] rows.contains_key(n)
                    &&& rows[n] == sought
                };
            assert(n != number);
            assert(old_rows.contains_key(n) && old_rows[n] == sought);
        }
        if is_contract(before, name, d) {
            let n = choose|n: i64|
                {
                    &&& #[trigger] old_rows.contains_key(n)
                    &&& old_rows[n] == sought
                };
            assert(rows.contains_key(n) && rows[n] == sought);
        }
    }
}

/// A contract name that is in use cannot be used again.
pub proof fn law_used_contract_name_is_refused(
    before: Tables,
    after: Tables,
    contract_name: Seq<char>,
    data: Seq<char>,
)
    requires
        has_contract(before, contract_name),
    ensures
        !inserted(before, after, Table::Contracts, contract_row(contract_name, data)),
{
    assert(contract_row(contract_name, data)[0] == Cell::Text(contract_name));
}

/// Adding simulated blocks raises the tip by their number and its time by as many block times.
/// The blocks that were there stay what they were, and so does all else.
pub proof fn law_mining_adds_to_the_tip(
    before: Tables,
    after: Tables,
    count: nat,
    tip: i64,
    time: i64,
)
    requires
        extends(before, after, count),
        is_tip_at(before, tip, time),
    ensures
        is_tip_at(after, (tip + count) as i64, (time + count * SIMMED_BLOCK_TIME) as i64),
        forall|height: i64|
            height <= tip ==> (#[trigger] after[Table::Blocks].contains_key(height)
                <==> before[Table::Blocks].contains_key(height)),
        forall|height: i64|
            height <= tip && before[Table::Blocks].contains_key(height)
                ==> #[trigger] after[Table::Blocks][height] == before[Table::Blocks][height],
        forall|height: i64|
            tip < height <= tip + count ==> #[trigger] after[Table::Blocks].contains_key(height),
        forall|height: i64|
            tip < height <= tip + count ==> #[trigger] after[Table::Blocks][height] == block_row(
                height,
                (time + (height - tip) * SIMMED_BLOCK_TIME) as i64,
            ),
        forall|table: Table| table != Table::Blocks ==> #[trigger] after[table] == before[table],
        forall|table: Table| #[trigger]
            after.contains_key(table) <==> before.contains_key(table) || (count > 0 && table
                == Table::Blocks),
{
    if count > 0 {
        let (t, s) = choose|t: i64, s: i64|
            {
                &&& #[trigger] is_tip_at(before, t, s)
                &&& 0 <= t
                &&& 0 <= s
                &&& t + count <= i64::MAX
                &&& s + count * SIMMED_BLOCK_TIME <= i64::MAX
                &&& after == mined(before, t as int, s as int, count)
            };
        assert(t == tip && s == time);
        lemma_mined_tip(before, tip, time, count);
        lemma_mined_blocks(before, tip, time, count);
    }
}

/// What adding blocks above a tip does to the single blocks.
proof fn lemma_mined_blocks(before: Tables, tip: i64, time: i64, count: nat)
    requires
        tip + count <= i64::MAX,
        time + count * SIMMED_BLOCK_TIME <= i64::MAX,
    ensures
        ({
            let after = mined(before, tip as int, time as int, count);
            &&& forall|height: i64|
                height <= tip ==> (#[trigger] after[Table::Blocks].contains_key(height)
                    <==> before[Table::Blocks].contains_key(height))
            &&& forall|height: i64|
                height <= tip && before[Table::Blocks].contains_key(height)
                    ==> #[trigger] after[Table::Blocks][height] == before[Table::Blocks][height]
            &&& forall|height: i64|
                tip < height <= tip + count
                    ==> #[trigger] after[Table::Blocks].contains_key(height)
            &&& forall|height: i64|
                tip < height <= tip + count ==> #[trigger] after[Table::Blocks][height]
                    == block_row(height, (time + (height - tip) * SIMMED_BLOCK_TIME) as i64)
            &&& forall|table: Table|
                table != Table::Blocks ==> #[trigger] after[table] == before[table]
            &&& forall|table: Table| #[trigger]
                after.contains_key(table) <==> before.contains_key(table) || (count > 0 && table
                    == Table::Blocks)
        }),
    decreases count,
{
    if count > 0 {
        let less = (count - 1) as nat;
        lemma_mined_blocks(before, tip, time, less);
        let middle = mined(before, tip as int, time as int, less);
        let after = mined(before, tip as int, time as int, count);
        let top = (tip + count) as i64;
        assert forall|height: i64| #[trigger]
            after[Table::Blocks].contains_key(height) <==> middle[Table::Blocks].contains_key(
                height,
            ) || height == top by {}
        assert forall|height: i64| height != top implies #[trigger] after[Table::Blocks][height]
            == middle[Table::Blocks][height] by {}
    }
}

/// Adding blocks twice is adding them all at once.
pub proof fn law_mining_adds_up(
    before: Tables,
    middle: Tables,
    after: Tables,
    first: nat,
    second: nat,
)
    requires
        extends(before, middle, first),
        extends(middle, after, second),
    ensures
        extends(before, after, first + second),
{
    if first > 0 && second > 0 {
        let (tip, time) = choose|t: i64, s: i64|
            {
                &&& #[trigger] is_tip_at(before, t, s)
                &&& 0 <= t
                &&& 0 <= s
                &&& t + first <= i64::MAX
                &&& s + first * SIMMED_BLOCK_TIME <= i64::MAX
                &&& middle == mined(before, t as int, s as int, first)
            };
        let (tip2, time2) = choose|t: i64, s: i64|
            {
                &&& #[trigger] is_tip_at(middle, t, s)
                &&& 0 <= t
                &&& 0 <= s
                &&& t + second <= i64::MAX
                &&& s + second * SIMMED_BLOCK_TIME <= i64::MAX
                &&& after == mined(middle, t as int, s as int, second)
            };
        lemma_mined_tip(before, tip, time, first);
        assert(tip2 == tip + first);
        assert(time2 == time + first * SIMMED_BLOCK_TIME);
        lemma_mined_twice(before, tip as int, time as int, first, second);
        assert(is_tip_at(before, tip, time));
    }
}

/// Blocks mined on mined blocks.
proof fn lemma_mined_twice(before: Tables, tip: int, time: int, first: nat, second: nat)
    ensures
        mined(
            mined(before, tip, time, first),
            tip + first,
            time + first * SIMMED_BLOCK_TIME,
            second,
        ) == mined(before, tip, time, first + second),
    decreases second,
{
    if second > 0 {
        lemma_mined_twice(before, tip, time, first, (second - 1) as nat);
    }
}

/// Initializing a database that has no block gives it a chain: blocks of all heights from 0 on,
/// with times that are not negative and the bytes of their heights.
pub proof fn law_initialized_blocks_are_a_chain(before: Tables, after: Tables, time_now: int)
    requires
        initialized(before, after, time_now),
        forall|height: i64| !#[trigger] with_tables(before)[Table::Blocks].contains_key(height),
    ensures
        is_chain(after, (SIMMED_BLOCK_COUNT - 1) as i64),
{
    let rows = after[Table::Blocks];
    assert(rows =~= first_blocks(SIMMED_BLOCK_COUNT as int, time_now));
    assert forall|height: i64| 0 <= height < SIMMED_BLOCK_COUNT implies is_simulated(
        #[trigger] rows[height],
        height,
    ) by {
        let time = (time_now - (SIMMED_BLOCK_COUNT - height) * SIMMED_BLOCK_TIME) as i64;
        assert(rows[height] == block_row(height, time));
    }
}

/// Adding a block of any time above the tip of a chain gives a chain.
pub proof fn law_timed_block_keeps_a_chain(
    before: Tables,
    after: Tables,
    end: i64,
    tip: i64,
    time: i64,
)
    requires
        is_chain(before, end),
        is_tip(before, tip),
        tip < i64::MAX,
        0 <= time,
        after == with_block(before, (tip + 1) as i64, time),
    ensures
        tip == end,
        is_chain(after, (tip + 1) as i64),
{
    let old_rows = before[Table::Blocks];
    let rows = after[Table::Blocks];
    let top = (tip + 1) as i64;
    assert(old_rows.contains_key(end) && old_rows.contains_key(tip));
    assert forall|height: i64| 0 <= height <= top implies is_simulated(
        #[trigger] rows[height],
        height,
    ) by {
        if height == top {
            assert(rows[height] == block_row(height, time));
        } else {
            assert(is_simulated(old_rows[height], height));
            assert(rows[height] == old_rows[height]);
        }
    }
    assert forall|height: i64| #[trigger] rows.contains_key(height) <==> 0 <= height <= top by {
        assert(old_rows.contains_key(height) <==> 0 <= height <= end);
    }
}

/// Adding blocks to a chain gives a chain.
pub proof fn law_mining_keeps_a_chain(before: Tables, after: Tables, tip: i64, count: nat)
    requires
        is_chain(before, tip),
        extends(before, after, count),
    ensures
        tip + count <= i64::MAX,
        is_chain(after, (tip + count) as i64),
{
    if count > 0 {
        let (t, time) = choose|t: i64, s: i64|
            {
                &&& #[trigger] is_tip_at(before, t, s)
                &&& 0 <= t
                &&& 0 <= s
                &&& t + count <= i64::MAX
                &&& s + count * SIMMED_BLOCK_TIME <= i64::MAX
                &&& after == mined(before, t as int, s as int, count)
            };
        assert(before[Table::Blocks].contains_key(tip) && before[Table::Blocks].contains_key(t));
        assert(t == tip);
        lemma_mined_chain(before, tip, time, count);
    }
}

/// Blocks mined on a chain are a chain.
proof fn lemma_mined_chain(before: Tables, tip: i64, time: i64, count: nat)
    requires
        is_chain(before, tip),
        is_tip_at(before, tip, time),
        0 <= time,
        tip + count <= i64::MAX,
        time + count * SIMMED_BLOCK_TIME <= i64::MAX,
    ensures
        is_chain(mined(before, tip as int, time as int, count), (tip + count) as i64),
    decreases count,
{
    if count > 0 {
        let less = (count - 1) as nat;
        lemma_mined_chain(before, tip, time, less);
        lemma_mined_tip(before, tip, time, less);
        law_timed_block_keeps_a_chain(
            mined(before, tip as int, time as int, less),
            mined(before, tip as int, time as int, count),
            (tip + less) as i64,
            (tip + less) as i64,
            (time + count * SIMMED_BLOCK_TIME) as i64,
        );
    }
}

/// A new database is valid and whole, and holds nothing but its first simulated blocks, the last
/// of them one block time before the moment it was made.
pub proof fn law_new_database(after: Tables, time_now: int)
    requires
        initialized(empty_database(), after, time_now),
    ensures
        is_valid(after),
        is_whole(after),
        after[Table::Maps] == Map::<i64, Seq<Cell>>::empty(),
        after[Table::Data] == Map::<i64, Seq<Cell>>::empty(),
        after[Table::Contracts] == Map::<i64, Seq<Cell>>::empty(),
        after[Table::Blocks] == first_blocks(SIMMED_BLOCK_COUNT as int, time_now),
        is_tip_at(
            after,
            (SIMMED_BLOCK_COUNT - 1) as i64,
            (time_now - SIMMED_BLOCK_TIME) as i64,
        ),
{
    assert(after[Table::Blocks] =~= first_blocks(SIMMED_BLOCK_COUNT as int, time_now));
}

/// A database cannot be initialized twice.
pub proof fn law_initialized_database_is_refused(
    before: Tables,
    after: Tables,
    later: Tables,
    time_now: int,
    time_later: int,
)
    requires
        initialized(before, after, time_now),
    ensures
        !initialized(after, later, time_later),
{
    assert(after[Table::Blocks].contains_key(0i64));
    assert(with_tables(after)[Table::Blocks].contains_key(0i64));
}

/// An initialization that is refused changes nothing in a database that was initialized before.
pub proof fn law_refused_initialization_changes_nothing(
    before: Tables,
    after: Tables,
    later: Tables,
    time_now: int,
    time_later: int,
)
    requires
        initialized(before, after, time_now),
        interrupted(after, later, time_later),
    ensures
        later == after,
{
    assert(with_tables(after) == after);
    let done = choose|done: int|
        {
            &&& 0 <= done < SIMMED_BLOCK_COUNT
            &&& #[trigger] lacks_blocks(after, done)
            &&& after[Table::Blocks].contains_key(done as i64)
            &&& later == with_first_blocks(after, done, time_later)
        };
    assert(after[Table::Blocks].contains_key(0i64));
    assert(done == 0);
    lemma_no_first_blocks(after, time_later);
}

/// An initialization that is refused leaves every row as it was.
pub proof fn law_refused_initialization_keeps_rows(before: Tables, after: Tables, time_now: int)
    requires
        interrupted(before, after, time_now),
    ensures
        keeps_rows(before, after),
{
    let made = with_tables(before);
    let done = choose|done: int|
        {
            &&& 0 <= done < SIMMED_BLOCK_COUNT
            &&& #[trigger] lacks_blocks(made, done)
            &&& made[Table::Blocks].contains_key(done as i64)
            &&& after == with_first_blocks(made, done, time_now)
        };
    assert forall|table: Table| #[trigger] before.contains_key(table) implies {
        &&& after.contains_key(table)
        &&& are_among(before[table], after[table])
    } by {
        assert(made.contains_key(table) && made[table] == before[table]);
        assert forall|number: i64| #[trigger] before[table].contains_key(number) implies {
            &&& after[table].contains_key(number)
            &&& after[table][number] == before[table][number]
        } by {
            if table == Table::Blocks {
                assert(made[Table::Blocks].contains_key(number));
                assert(!first_blocks(done, time_now).contains_key(number));
            }
        }
    }
}

/// An empty database is never refused an initialization.
pub proof fn law_empty_database_is_not_refused(after: Tables, time_now: int)
    ensures
        !interrupted(empty_database(), after, time_now),
{
    let made = with_tables(empty_database());
    assert(made[Table::Blocks] == Map::<i64, Seq<Cell>>::empty());
}

/// A database that has the tables of the store can be rolled back and committed.
pub proof fn law_store_is_described(tables: Tables)
    requires
        has_tables(tables),
    ensures
        is_described(tables),
{
    assert(tables.contains_key(Table::Maps));
}

/// A savepoint that is made, worked in and committed leaves the tables as it had them in the end,
/// whether it was made in a connection or in another savepoint.
pub proof fn law_committed_savepoint_stays<T: ContractDatabaseTransacter>(
    outer: T,
    made: ContractDatabase,
    ended: ContractDatabase,
    outer_after: T,
)
    requires
        outer.is_exclusive(),
        made.tables() == outer.held(),
        outer_after.held() == made.outcome(),
        ended.is_within(&made),
        ended.outcome() == ended.tables(),
    ensures
        outer_after.held() == ended.tables(),
{
}

/// A savepoint that is made, worked in, rolled back and committed leaves the tables as they were.
pub proof fn law_rolled_back_savepoint_leaves_nothing<T: ContractDatabaseTransacter>(
    outer: T,
    made: ContractDatabase,
    used: ContractDatabase,
    ended: ContractDatabase,
    outer_after: T,
)
    requires
        outer.is_exclusive(),
        made.tables() == outer.held(),
        made.start() == made.tables(),
        outer_after.held() == made.outcome(),
        used.is_within(&made),
        ended.is_within(&used),
        ended.tables() == used.start(),
        ended.outcome() == ended.tables(),
    ensures
        outer_after.held() == outer.held(),
{
}

/// A savepoint that is dropped without a commit leaves the tables as they were, whatever was done
/// in it.
pub proof fn law_dropped_savepoint_leaves_nothing<T: ContractDatabaseTransacter>(
    outer: T,
    made: ContractDatabase,
    outer_after: T,
)
    requires
        outer.is_exclusive(),
        made.tables() == outer.held(),
        made.is_dropped(),
        made.is_dropped() ==> outer_after.held() == outer.held(),
    ensures
        outer_after.held() == made.tables(),
{
}

/// Rolling a savepoint back undoes everything since it was made, whatever savepoints inside it have
/// left: what they committed, too.
pub proof fn law_rollback_undoes_inner_savepoints(
    made: ContractDatabase,
    outer: ContractDatabase,
    inner: ContractDatabase,
    outer_after: ContractDatabase,
    rolled_back: ContractDatabase,
)
    requires
        made.start() == made.tables(),
        outer.is_within(&made),
        outer_after.tables() == inner.outcome(),
        outer_after.is_within(&outer),
        rolled_back.tables() == outer_after.start(),
    ensures
        rolled_back.tables() == made.tables(),
{
}

} // verus!
