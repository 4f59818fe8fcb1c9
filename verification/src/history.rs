//! What holds of the entries over a history of changes.

use crate::blocks::{extends, is_tip_at, mined, with_block, SIMMED_BLOCK_TIME};
use crate::connection::initialized;
use crate::entries::{
    entry_row, is_present, lemma_no_row_is_no_entry, lemma_recorded_is_valid, reads_as, recorded,
    Request,
};
use crate::laws::{
    are_apart, law_mining_adds_to_the_tip, law_new_database, law_recording_changes_one_entry,
    lemma_recorded_is_not_read_elsewhere,
};
use crate::sqlite::empty_database;
use crate::tables::{
    appended, are_among, entry, holds, inserted, is_about, is_map, is_newest, is_next, is_valid,
    lemma_new_contract_is_valid, lemma_new_map_is_valid, map_row, with_row, Cell, Table, Tables,
};
use crate::values::{Language, TypeSignature, Value};
use vstd::prelude::*;

verus! {

/// `after` has the entries of `before`, and the maps of `before` and maybe others, and is valid.
pub open spec fn keeps_entries(before: Tables, after: Tables) -> bool {
    &&& after[Table::Data] == before[Table::Data]
    &&& are_among(before[Table::Maps], after[Table::Maps])
    &&& is_valid(after)
}

/// One step of a history: a change of an entry, or work of another kind.
pub enum Step<A, S, D> {
    /// A map was made to hold this value under the key of the request.
    Write(Request<A, S, D>, Value),
    /// A map was made to hold nothing under the key of the request.
    Delete(Request<A, S, D>),
    /// No entry was changed.
    Other,
}

impl<A, S, D> Step<A, S, D> where
    A: Fn(&TypeSignature, &Value) -> bool,
    S: Fn(&Value) -> String,
    D: Fn(&String) -> Value,
 {
    /// The step makes `after` of `before`.
    pub open spec fn leads(self, before: Tables, after: Tables) -> bool {
        match self {
            Step::Write(asked, value) => asked.writes(before, after, value),
            Step::Delete(asked) => asked.deletes(before, after),
            Step::Other => keeps_entries(before, after),
        }
    }

    /// The step changes the entry that `asked` is about.
    pub open spec fn changes(self, asked: Request<A, S, D>) -> bool {
        match self {
            Step::Write(other, _) => !are_apart(other, asked),
            Step::Delete(other) => !are_apart(other, asked),
            Step::Other => false,
        }
    }

    /// The step is taken in `language`, which writes its key in one way and reads back what it
    /// writes for its value.
    pub open spec fn is_in(self, language: Language<A, S, D>) -> bool {
        match self {
            Step::Write(asked, value) => {
                &&& asked.language == language
                &&& language.writes_one_way(asked.key)
                &&& language.reads_back(value)
            },
            Step::Delete(asked) => asked.language == language && language.writes_one_way(asked.key),
            Step::Other => true,
        }
    }
}

/// The steps lead from each of the states to the next.
pub open spec fn is_history<A, S, D>(steps: Seq<Step<A, S, D>>, states: Seq<Tables>) -> bool where
    A: Fn(&TypeSignature, &Value) -> bool,
    S: Fn(&Value) -> String,
    D: Fn(&String) -> Value,
 {
    &&& states.len() == steps.len() + 1
    &&& forall|i: int|
        #![trigger steps[i]]
        0 <= i < steps.len() ==> steps[i].leads(states[i], states[i + 1])
}

/// The last of the steps that changes the entry that `asked` is about; `Other`, if none does.
pub open spec fn latest<A, S, D>(
    steps: Seq<Step<A, S, D>>,
    asked: Request<A, S, D>,
) -> Step<A, S, D> where
    A: Fn(&TypeSignature, &Value) -> bool,
    S: Fn(&Value) -> String,
    D: Fn(&String) -> Value,

    decreases steps.len(),
{
    if steps.len() == 0 {
        Step::Other
    } else if steps.last().changes(asked) {
        steps.last()
    } else {
        latest(steps.drop_last(), asked)
    }
}

/// There is a map of this name.
spec fn has_name(tables: Tables, map_name: Seq<char>) -> bool {
    holds(tables[Table::Maps], 1, Cell::Text(map_name))
}

/// A request that finds a map finds one of its name.
proof fn lemma_taken_key_has_name<A, S, D>(
    asked: Request<A, S, D>,
    tables: Tables,
    map: i64,
    text: Seq<char>,
) where
    A: Fn(&TypeSignature, &Value) -> bool,
    S: Fn(&Value) -> String,
    D: Fn(&String) -> Value,

    requires
        asked.takes_key(tables, map, text),
    ensures
        tables[Table::Maps].contains_key(map),
        tables[Table::Maps][map][1] == Cell::Text(asked.map_name),
        has_name(tables, asked.map_name),
{
    let (k, v) = choose|k: Seq<char>, v: Seq<char>|
        {
            &&& #[trigger] asked.finds(tables, map, k, v)
            &&& asked.language.may_admit(k, asked.key, true)
        };
    assert(map_row(asked.contract_name, asked.map_name, k, v)[1] == Cell::Text(asked.map_name));
}

/// What one step that is recorded does to what is read: it decides, if it changes the entry, and
/// does nothing otherwise.
proof fn lemma_recorded_step<A, S, D>(
    by: Request<A, S, D>,
    asked: Request<A, S, D>,
    before: Tables,
    after: Tables,
    map: i64,
    key_text: Seq<char>,
    value: Option<Seq<char>>,
    read: Value,
) where
    A: Fn(&TypeSignature, &Value) -> bool,
    S: Fn(&Value) -> String,
    D: Fn(&String) -> Value,

    requires
        is_valid(before),
        by.takes_key(before, map, key_text),
        recorded(before, after, map, key_text, value),
        by.language == asked.language,
        by.language.writes_one_way(by.key),
        asked.language.writes_one_way(asked.key),
    ensures
        is_valid(after),
        has_name(after, by.map_name),
        after[Table::Maps] == before[Table::Maps],
        asked.reads(after, read) && !are_apart(by, asked) ==> reads_as(
            value,
            asked.language,
            read,
        ),
        asked.reads(after, read) && are_apart(by, asked) ==> asked.reads(before, read),
{
    lemma_taken_key_has_name(by, before, map, key_text);
    lemma_recorded_is_valid(before, after, map, key_text, value);
    law_recording_changes_one_entry(before, after, map, key_text, value);
    if asked.reads(after, read) {
        if are_apart(by, asked) {
            lemma_recorded_is_not_read_elsewhere(
                by,
                asked,
                before,
                after,
                map,
                key_text,
                value,
                read,
            );
        } else {
            let (found, text) = choose|m: i64, t: Seq<char>|
                {
                    &&& #[trigger] asked.takes_key(after, m, t)
                    &&& reads_as(entry(after, m, t), asked.language, read)
                };
            lemma_taken_key_has_name(asked, after, found, text);
            assert(before[Table::Maps].contains_key(found));
            assert(found == map);
            let common = choose|t: Seq<char>| #[trigger]
                by.language.may_write(by.key, t) && asked.language.may_write(asked.key, t);
            assert(by.language.may_write(by.key, key_text));
            assert(asked.language.may_write(asked.key, text));
            assert(common == key_text && common == text);
        }
    }
}

/// What work of another kind does to what is read: nothing, but that a new map reads as empty.
proof fn lemma_other_step<A, S, D>(
    asked: Request<A, S, D>,
    before: Tables,
    after: Tables,
    read: Value,
) where
    A: Fn(&TypeSignature, &Value) -> bool,
    S: Fn(&Value) -> String,
    D: Fn(&String) -> Value,

    requires
        is_valid(before),
        keeps_entries(before, after),
    ensures
        forall|name: Seq<char>| #[trigger] has_name(before, name) ==> has_name(after, name),
        asked.reads(after, read) ==> asked.reads(before, read) || (read is Void && !has_name(
            before,
            asked.map_name,
        )),
{
    let old_rows = before[Table::Maps];
    let rows = after[Table::Maps];
    assert forall|name: Seq<char>| #[trigger] has_name(before, name) implies has_name(
        after,
        name,
    ) by {
        let n = choose|n: i64| #[trigger]
            old_rows.contains_key(n) && old_rows[n][1] == Cell::Text(name);
        assert(rows.contains_key(n) && rows[n] == old_rows[n]);
    }
    if asked.reads(after, read) {
        let (map, text) = choose|m: i64, t: Seq<char>|
            {
                &&& #[trigger] asked.takes_key(after, m, t)
                &&& reads_as(entry(after, m, t), asked.language, read)
            };
        lemma_taken_key_has_name(asked, after, map, text);
        let (k, v) = choose|k: Seq<char>, v: Seq<char>|
            {
                &&& #[trigger] asked.finds(after, map, k, v)
                &&& asked.language.may_admit(k, asked.key, true)
            };
        if old_rows.contains_key(map) {
            assert(old_rows[map] == rows[map]);
            assert(asked.finds(before, map, k, v));
            assert(asked.takes_key(before, map, text));
            assert(entry(before, map, text) == entry(after, map, text));
        } else {
            if has_name(before, asked.map_name) {
                let n = choose|n: i64| #[trigger]
                    old_rows.contains_key(n) && old_rows[n][1] == Cell::Text(asked.map_name);
                assert(rows.contains_key(n) && rows[n] == old_rows[n]);
                assert(rows.contains_key(map));
                assert(n == map);
            }
            assert forall|n: i64| !is_about(after[Table::Data], n, map, text) by {
                if is_about(after[Table::Data], n, map, text) {
                    assert(before[Table::Data].contains_key(n));
                }
            }
            lemma_no_row_is_no_entry(after, map, text);
        }
    }
}

/// The steps of a history, one by one.
proof fn lemma_history<A, S, D>(
    steps: Seq<Step<A, S, D>>,
    states: Seq<Tables>,
    asked: Request<A, S, D>,
    read: Value,
) where
    A: Fn(&TypeSignature, &Value) -> bool,
    S: Fn(&Value) -> String,
    D: Fn(&String) -> Value,

    requires
        is_history(steps, states),
        is_valid(states[0]),
        asked.language.writes_one_way(asked.key),
        forall|i: int| 0 <= i < steps.len() ==> (#[trigger] steps[i]).is_in(asked.language),
    ensures
        is_valid(states.last()),
        !(latest(steps, asked) is Other) ==> has_name(states.last(), asked.map_name),
        asked.reads(states.last(), read) ==> match latest(steps, asked) {
            Step::Write(_, value) => read == value,
            Step::Delete(_) => read is Void,
            Step::Other => asked.reads(states[0], read) || read is Void,
        },
    decreases steps.len(),
{
    if steps.len() > 0 {
        let fewer = steps.drop_last();
        let earlier = states.drop_last();
        let before = earlier.last();
        let after = states.last();
        let last = steps.last();
        assert forall|i: int| 0 <= i < fewer.len() implies (#[trigger] fewer[i]).leads(
            earlier[i],
            earlier[i + 1],
        ) && fewer[i].is_in(asked.language) by {
            assert(fewer[i] == steps[i]);
        }
        lemma_history(fewer, earlier, asked, read);
        assert(steps[steps.len() - 1] == last);
        assert(last.leads(before, after) && last.is_in(asked.language));
        match last {
            Step::Write(by, value) => {
                let (map, key_text, value_text) = choose|
                    map: i64,
                    key_text: Seq<char>,
                    value_text: Seq<char>,
                |
                    {
                        &&& #[trigger] by.takes_key(before, map, key_text)
                        &&& by.admits_value(before, value, map)
                        &&& #[trigger] by.language.may_write(value, value_text)
                        &&& recorded(before, after, map, key_text, Some(value_text))
                    };
                lemma_recorded_step(
                    by,
                    asked,
                    before,
                    after,
                    map,
                    key_text,
                    Some(value_text),
                    read,
                );
                if asked.reads(after, read) && !are_apart(by, asked) {
                    assert(asked.language.may_read(value_text, read));
                    assert(read == value);
                }
            },
            Step::Delete(by) => {
                let (map, key_text) = choose|map: i64, key_text: Seq<char>|
                    {
                        &&& #[trigger] by.takes_key(before, map, key_text)
                        &&& is_present(entry(before, map, key_text), by.language)
                        &&& recorded(before, after, map, key_text, None)
                    };
                lemma_recorded_step(by, asked, before, after, map, key_text, None, read);
            },
            Step::Other => {
                lemma_other_step(asked, before, after, read);
            },
        }
    }
}

/// The latest change of an entry decides what is read: over any history of writes, deletions and
/// other work that was not rolled back, the value of the last write if that came last, and `Void`
/// if a deletion came last. Without a change, it is what was read at first, or `Void` from a map
/// that is new; from a database that starts without entries it is `Void`.
pub proof fn law_latest_change_decides<A, S, D>(
    steps: Seq<Step<A, S, D>>,
    states: Seq<Tables>,
    asked: Request<A, S, D>,
    read: Value,
) where
    A: Fn(&TypeSignature, &Value) -> bool,
    S: Fn(&Value) -> String,
    D: Fn(&String) -> Value,

    requires
        is_history(steps, states),
        is_valid(states[0]),
        asked.language.writes_one_way(asked.key),
        forall|i: int| 0 <= i < steps.len() ==> (#[trigger] steps[i]).is_in(asked.language),
        asked.reads(states.last(), read),
    ensures
        is_valid(states.last()),
        match latest(steps, asked) {
            Step::Write(_, value) => read == value,
            Step::Delete(_) => read is Void,
            Step::Other => {
                &&& asked.reads(states[0], read) || read is Void
                &&& states[0][Table::Data] == Map::<i64, Seq<Cell>>::empty() ==> read is Void
            },
        },
{
    lemma_history(steps, states, asked, read);
    if states[0][Table::Data] == Map::<i64, Seq<Cell>>::empty() && asked.reads(states[0], read) {
        let (map, text) = choose|m: i64, t: Seq<char>|
            {
                &&& #[trigger] asked.takes_key(states[0], m, t)
                &&& reads_as(entry(states[0], m, t), asked.language, read)
            };
        assert forall|n: i64| !is_about(states[0][Table::Data], n, map, text) by {}
        lemma_no_row_is_no_entry(states[0], map, text);
    }
}

/// Making a map, storing a contract and adding blocks are work that changes no entry.
pub proof fn law_other_work_keeps_entries(
    before: Tables,
    after: Tables,
    row: Seq<Cell>,
    count: nat,
    height: i64,
    time: i64,
)
    requires
        is_valid(before),
        inserted(before, after, Table::Maps, row) || inserted(before, after, Table::Contracts, row)
            || extends(before, after, count) || after == with_block(before, height, time),
    ensures
        keeps_entries(before, after),
{
    if inserted(before, after, Table::Maps, row) {
        lemma_new_map_is_valid(before, after, row);
        let number = choose|number: i64| #[trigger]
            is_next(before[Table::Maps], number) && after == with_row(
                before,
                Table::Maps,
                number,
                row,
            );
        assert(!before[Table::Maps].contains_key(number));
    } else if inserted(before, after, Table::Contracts, row) {
        lemma_new_contract_is_valid(before, after, row);
    } else if after == with_block(before, height, time) {
        lemma_other_tables_are_valid(before, after);
    } else if count > 0 {
        let (tip, tip_time) = choose|t: i64, s: i64|
            {
                &&& #[trigger] is_tip_at(before, t, s)
                &&& 0 <= t
                &&& 0 <= s
                &&& t + count <= i64::MAX
                &&& s + count * SIMMED_BLOCK_TIME <= i64::MAX
                &&& after == mined(before, t as int, s as int, count)
            };
        law_mining_adds_to_the_tip(before, after, count, tip, tip_time);
        lemma_other_tables_are_valid(before, after);
    }
}

/// What is valid does not depend on the blocks.
proof fn lemma_other_tables_are_valid(before: Tables, after: Tables)
    requires
        is_valid(before),
        forall|table: Table| before.contains_key(table) ==> #[trigger] after.contains_key(table),
        forall|table: Table| table != Table::Blocks ==> #[trigger] after[table] == before[table],
    ensures
        is_valid(after),
{
    assert(after[Table::Maps] == before[Table::Maps]);
    assert(after[Table::Data] == before[Table::Data]);
    assert(after[Table::Contracts] == before[Table::Contracts]);
    assert(before.contains_key(Table::Maps) && before.contains_key(Table::Data));
    assert(before.contains_key(Table::Contracts) && before.contains_key(Table::Blocks));
    assert(after.contains_key(Table::Maps) && after.contains_key(Table::Data));
    assert(after.contains_key(Table::Contracts) && after.contains_key(Table::Blocks));
}

/// The language says that the value type of map number `map` admits `value`.
pub open spec fn is_admitted<A, S, D>(
    tables: Tables,
    language: Language<A, S, D>,
    map: i64,
    value: Value,
) -> bool where
    A: Fn(&TypeSignature, &Value) -> bool,
    S: Fn(&Value) -> String,
    D: Fn(&String) -> Value,
 {
    exists|
        contract_name: Seq<char>,
        map_name: Seq<char>,
        key_type: Seq<char>,
        value_type: Seq<char>,
    |
        {
            &&& #[trigger] is_map(tables, contract_name, map_name, map, key_type, value_type)
            &&& language.may_admit(value_type, value, true)
        }
}

/// The language may write `text` for a value that map number `map` admits.
pub open spec fn stands_for_admitted<A, S, D>(
    tables: Tables,
    language: Language<A, S, D>,
    map: i64,
    text: Seq<char>,
) -> bool where
    A: Fn(&TypeSignature, &Value) -> bool,
    S: Fn(&Value) -> String,
    D: Fn(&String) -> Value,
 {
    exists|value: Value| #[trigger]
        language.may_write(value, text) && is_admitted(tables, language, map, value)
}

/// The row is about an entry whose text, if it has one, is what the language writes for a value
/// that the map admits.
pub open spec fn is_typed<A, S, D>(
    tables: Tables,
    language: Language<A, S, D>,
    row: Seq<Cell>,
) -> bool where
    A: Fn(&TypeSignature, &Value) -> bool,
    S: Fn(&Value) -> String,
    D: Fn(&String) -> Value,
 {
    match (row[0], row[2]) {
        (Cell::Integer(map), Cell::Text(text)) => stands_for_admitted(tables, language, map, text),
        (_, Cell::Text(_)) => false,
        _ => true,
    }
}

/// Every text that was ever recorded stands for a value that its map admits.
pub open spec fn is_well_typed<A, S, D>(tables: Tables, language: Language<A, S, D>) -> bool where
    A: Fn(&TypeSignature, &Value) -> bool,
    S: Fn(&Value) -> String,
    D: Fn(&String) -> Value,
 {
    forall|number: i64| #[trigger]
        tables[Table::Data].contains_key(number) ==> is_typed(
            tables,
            language,
            tables[Table::Data][number],
        )
}

/// A new database is well typed.
pub proof fn law_new_database_is_well_typed<A, S, D>(
    after: Tables,
    time_now: int,
    language: Language<A, S, D>,
) where
    A: Fn(&TypeSignature, &Value) -> bool,
    S: Fn(&Value) -> String,
    D: Fn(&String) -> Value,

    requires
        initialized(empty_database(), after, time_now),
    ensures
        is_well_typed(after, language),
{
    law_new_database(after, time_now);
}

/// A row that is typed stays so when maps are added.
proof fn lemma_typed_row_stays<A, S, D>(
    before: Tables,
    after: Tables,
    language: Language<A, S, D>,
    row: Seq<Cell>,
) where
    A: Fn(&TypeSignature, &Value) -> bool,
    S: Fn(&Value) -> String,
    D: Fn(&String) -> Value,

    requires
        are_among(before[Table::Maps], after[Table::Maps]),
        is_typed(before, language, row),
    ensures
        is_typed(after, language, row),
{
    if row[2] is Text {
        let text = row[2]->Text_0;
        let map = row[0]->Integer_0;
        let value = choose|value: Value| #[trigger]
            language.may_write(value, text) && is_admitted(before, language, map, value);
        let (c, m, k, v) = choose|c: Seq<char>, m: Seq<char>, k: Seq<char>, v: Seq<char>|
            {
                &&& #[trigger] is_map(before, c, m, map, k, v)
                &&& language.may_admit(v, value, true)
            };
        assert(after[Table::Maps].contains_key(map));
        assert(is_map(after, c, m, map, k, v));
        assert(is_admitted(after, language, map, value));
    }
}

/// Every step of a history keeps a database well typed: no text is recorded but of a value that the
/// map admits.
pub proof fn law_step_keeps_types<A, S, D>(
    step: Step<A, S, D>,
    before: Tables,
    after: Tables,
    language: Language<A, S, D>,
) where
    A: Fn(&TypeSignature, &Value) -> bool,
    S: Fn(&Value) -> String,
    D: Fn(&String) -> Value,

    requires
        is_well_typed(before, language),
        step.leads(before, after),
        step matches Step::Write(asked, _) ==> asked.language == language,
    ensures
        is_well_typed(after, language),
{
    let old_rows = before[Table::Data];
    let rows = after[Table::Data];
    match step {
        Step::Write(by, value) => {
            let (map, key_text, value_text) = choose|
                map: i64,
                key_text: Seq<char>,
                value_text: Seq<char>,
            |
                {
                    &&& #[trigger] by.takes_key(before, map, key_text)
                    &&& by.admits_value(before, value, map)
                    &&& #[trigger] by.language.may_write(value, value_text)
                    &&& recorded(before, after, map, key_text, Some(value_text))
                };
            let row = entry_row(map, key_text, Some(value_text));
            let (k, v) = choose|k: Seq<char>, v: Seq<char>|
                {
                    &&& #[trigger] by.finds(before, map, k, v)
                    &&& by.language.may_admit(v, value, true)
                };
            assert(is_map(before, by.contract_name, by.map_name, map, k, v));
            assert(is_admitted(before, language, map, value));
            assert(language.may_write(value, value_text));
            assert(row[0] == Cell::Integer(map) && row[2] == Cell::Text(value_text));
            assert(stands_for_admitted(before, language, map, value_text));
            assert(is_typed(before, language, row));
            lemma_recorded_row_is_typed(before, after, language, row);
        },
        Step::Delete(by) => {
            let (map, key_text) = choose|map: i64, key_text: Seq<char>|
                {
                    &&& #[trigger] by.takes_key(before, map, key_text)
                    &&& is_present(entry(before, map, key_text), by.language)
                    &&& recorded(before, after, map, key_text, None)
                };
            let row = entry_row(map, key_text, None);
            assert(row[2] == Cell::Null);
            lemma_recorded_row_is_typed(before, after, language, row);
        },
        Step::Other => {
            assert forall|n: i64| #[trigger] rows.contains_key(n) implies is_typed(
                after,
                language,
                rows[n],
            ) by {
                assert(old_rows.contains_key(n));
                lemma_typed_row_stays(before, after, language, rows[n]);
            }
        },
    }
}

/// A typed row more keeps a database well typed.
proof fn lemma_recorded_row_is_typed<A, S, D>(
    before: Tables,
    after: Tables,
    language: Language<A, S, D>,
    row: Seq<Cell>,
) where
    A: Fn(&TypeSignature, &Value) -> bool,
    S: Fn(&Value) -> String,
    D: Fn(&String) -> Value,

    requires
        is_well_typed(before, language),
        is_typed(before, language, row),
        appended(before, after, Table::Data, row),
    ensures
        is_well_typed(after, language),
{
    let number = choose|number: i64| #[trigger]
        is_next(before[Table::Data], number) && after == with_row(
            before,
            Table::Data,
            number,
            row,
        );
    assert forall|n: i64| #[trigger] after[Table::Data].contains_key(n) implies is_typed(
        after,
        language,
        after[Table::Data][n],
    ) by {
        if n != number {
            assert(before[Table::Data].contains_key(n));
        }
        lemma_typed_row_stays(before, after, language, after[Table::Data][n]);
    }
}

/// No ill-typed value is read: in a well-typed database, with a language that reads back what it
/// writes, what is read is `Void` or a value that the value type of the map admits.
pub proof fn law_read_value_is_admitted<A, S, D>(
    asked: Request<A, S, D>,
    tables: Tables,
    read: Value,
) -> (value_type: Seq<char>) where
    A: Fn(&TypeSignature, &Value) -> bool,
    S: Fn(&Value) -> String,
    D: Fn(&String) -> Value,

    requires
        is_well_typed(tables, asked.language),
        forall|value: Value| #[trigger] asked.language.reads_back(value),
        asked.reads(tables, read),
    ensures
        exists|map: i64, key_type: Seq<char>| #[trigger]
            asked.finds(tables, map, key_type, value_type),
        read is Void || asked.language.may_admit(value_type, read, true),
{
    let (map, text) = choose|m: i64, t: Seq<char>|
        {
            &&& #[trigger] asked.takes_key(tables, m, t)
            &&& reads_as(entry(tables, m, t), asked.language, read)
        };
    let (key_type, value_type) = choose|k: Seq<char>, v: Seq<char>|
        {
            &&& #[trigger] asked.finds(tables, map, k, v)
            &&& asked.language.may_admit(k, asked.key, true)
        };
    let rows = tables[Table::Data];
    if entry(tables, map, text) is Some {
        let newest = choose|number: i64| is_newest(rows, number, map, text);
        assert(is_about(rows, newest, map, text));
        let row = rows[newest];
        assert(is_typed(tables, asked.language, row));
        let written = row[2]->Text_0;
        let value = choose|value: Value| #[trigger]
            asked.language.may_write(value, written) && is_admitted(
                tables,
                asked.language,
                map,
                value,
            );
        assert(asked.language.reads_back(value));
        assert(asked.language.may_read(written, read));
        assert(read == value);
        let (c, m, k, v) = choose|c: Seq<char>, m: Seq<char>, k: Seq<char>, v: Seq<char>|
            {
                &&& #[trigger] is_map(tables, c, m, map, k, v)
                &&& asked.language.may_admit(v, value, true)
            };
        assert(map_row(c, m, k, v)[3] == map_row(
            asked.contract_name,
            asked.map_name,
            key_type,
            value_type,
        )[3]);
    }
    value_type
}

} // verus!
