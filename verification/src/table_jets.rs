//! The tables of an execution trace as nouns: the compute table, with one
//! row for every operation in the queue of the trace, and the memory
//! table, which has a header and no rows.

use crate::field::PRIME;
use crate::jets::{core_path, names, JetError};
use crate::noun::{noun_list, pair, part_at, safe_list, slot, Noun};
use vstd::prelude::*;

verus! {

/// The name of the compute table, the text `compute` as a number.
pub const COMPUTE_NAME: u64 = 0x636f6d70757465;

/// The name of the memory table, the text `memory` as a number.
pub const MEMORY_NAME: u64 = 0x6d656d6f7279;

/// The most rows that are read from a queue.
pub const MAX_ROWS: usize = 10000;

/// The number of columns of a row of the compute table: the padding flag
/// and one flag for each of the ten operations.
pub const ROW_WIDTH: usize = 11;

/// The atom with the given value.
pub fn ultra_safe_atom(value: u64) -> (r: Noun)
    ensures
        r == Noun::Atom(value),
{
    Noun::Atom(value)
}

/// The atom with the given value.
pub fn make_atom(value: u64) -> (r: Noun)
    ensures
        r == Noun::Atom(value),
{
    Noun::Atom(value)
}

/// The atom with the given value.
pub fn safe_d(value: u64) -> (r: Noun)
    ensures
        r == Noun::Atom(value),
{
    make_atom(value)
}

/// The list of the items.
pub fn vec_to_list(items: Vec<Noun>) -> (r: Noun)
    ensures
        r == noun_list(items@),
{
    safe_list(items)
}

/// The list of the rows.
pub fn rows_to_list(rows: Vec<Noun>) -> (r: Noun)
    ensures
        r == noun_list(rows@),
{
    safe_list(rows)
}

/// The header of a table: its name, the prime, the four widths and the
/// number of randomizers, as a list.
pub open spec fn header_of(name: u64, base: u64, ext: u64, mega: u64, full: u64) -> Noun {
    noun_list(
        seq![
            Noun::Atom(name),
            Noun::Atom(PRIME),
            Noun::Atom(base),
            Noun::Atom(ext),
            Noun::Atom(mega),
            Noun::Atom(full),
            Noun::Atom(1),
        ],
    )
}

/// Builds the header of a table.
fn create_header(name: u64, base: u64, ext: u64, mega: u64, full: u64) -> (r: Noun)
    ensures
        r == header_of(name, base, ext, mega, full),
{
    let mut entries: Vec<Noun> = Vec::new();
    entries.push(safe_d(name));
    entries.push(make_atom(PRIME));
    entries.push(safe_d(base));
    entries.push(safe_d(ext));
    entries.push(safe_d(mega));
    entries.push(safe_d(full));
    entries.push(safe_d(1));
    proof {
        assert(entries@ =~= seq![
            Noun::Atom(name),
            Noun::Atom(PRIME),
            Noun::Atom(base),
            Noun::Atom(ext),
            Noun::Atom(mega),
            Noun::Atom(full),
            Noun::Atom(1),
        ]);
    }
    safe_list(entries)
}

/// The header of the compute table: 11 base columns, 57 extension
/// columns, 6 mega-extension columns, 74 in all.
pub fn create_compute_header() -> (r: Noun)
    ensures
        r == header_of(COMPUTE_NAME, 11, 57, 6, 74),
{
    create_header(COMPUTE_NAME, 11, 57, 6, 74)
}

/// The header of the memory table: 8 base columns, no extension columns,
/// 5 mega-extension columns, 13 in all.
pub fn create_memory_header() -> (r: Noun)
    ensures
        r == header_of(MEMORY_NAME, 8, 0, 5, 13),
{
    create_header(MEMORY_NAME, 8, 0, 5, 13)
}

/// The row of an operation: zero everywhere but in the column of the
/// operation, which is the one after the padding column.
pub open spec fn operation_row(op: u8) -> Noun {
    noun_list(
        Seq::new(
            11,
            |i: int|
                Noun::Atom(
                    if op <= 9 && i == op + 1 {
                        1
                    } else {
                        0
                    },
                ),
        ),
    )
}

/// The padding row: one in the padding column and in the column of
/// operation zero.
pub open spec fn padding_row() -> Noun {
    noun_list(
        Seq::new(
            11,
            |i: int|
                Noun::Atom(
                    if i < 2 {
                        1
                    } else {
                        0
                    },
                ),
        ),
    )
}

/// Builds the row of an operation.
pub fn create_operation_row(op: u8) -> (r: Noun)
    ensures
        r == operation_row(op),
{
    let mut values: Vec<Noun> = Vec::new();
    let mut i: usize = 0;
    while i < ROW_WIDTH
        invariant
            i <= ROW_WIDTH,
            values@.len() == i,
            forall|k: int|
                0 <= k < i ==> #[trigger] values@[k] == Noun::Atom(
                    if op <= 9 && k == op + 1 {
                        1
                    } else {
                        0
                    },
                ),
        decreases ROW_WIDTH - i,
    {
        if op <= 9 && i == (op as usize) + 1 {
            values.push(safe_d(1));
        } else {
            values.push(safe_d(0));
        }
        i = i + 1;
    }
    proof {
        assert(values@ =~= Seq::new(
            11,
            |i: int|
                Noun::Atom(
                    if op <= 9 && i == op + 1 {
                        1
                    } else {
                        0
                    },
                ),
        ));
    }
    safe_list(values)
}

/// Builds the padding row.
pub fn create_padding_row() -> (r: Noun)
    ensures
        r == padding_row(),
{
    let mut values: Vec<Noun> = Vec::new();
    let mut i: usize = 0;
    while i < ROW_WIDTH
        invariant
            i <= ROW_WIDTH,
            values@.len() == i,
            forall|k: int|
                0 <= k < i ==> #[trigger] values@[k] == Noun::Atom(
                    if k < 2 {
                        1
                    } else {
                        0
                    },
                ),
        decreases ROW_WIDTH - i,
    {
        if i < 2 {
            values.push(safe_d(1));
        } else {
            values.push(safe_d(0));
        }
        i = i + 1;
    }
    proof {
        assert(values@ =~= Seq::new(
            11,
            |i: int|
                Noun::Atom(
                    if i < 2 {
                        1
                    } else {
                        0
                    },
                ),
        ));
    }
    safe_list(values)
}

/// The operation of a formula: the last decimal digit of its head if the
/// formula is a cell, and of the formula itself if it is an atom. A cell
/// whose head is no atom that fits a word counts as operation nine, an
/// atom that does not fit a word as operation zero.
pub open spec fn operation_of(formula: Noun) -> u8 {
    match formula {
        Noun::Cell(head, _) => match *head {
            Noun::Atom(v) => (v % 10) as u8,
            _ => 9,
        },
        Noun::Atom(v) => (v % 10) as u8,
        Noun::BigAtom(_) => 0,
    }
}

/// The number of queue entries that belong to an operation.
pub open spec fn entries_of(op: u8) -> nat {
    if op == 0 || op == 1 {
        3
    } else if op == 2 || op == 8 || op == 9 || op == 5 {
        5
    } else if op == 3 || op == 4 || op == 7 {
        4
    } else if op == 6 {
        6
    } else {
        3
    }
}

/// The queue after `count` entries are skipped; the atom zero if the queue
/// ends before.
pub open spec fn skipped(queue: Noun, count: nat) -> Noun
    decreases count,
{
    if count == 0 {
        queue
    } else {
        match queue {
            Noun::Cell(_, tail) => skipped(*tail, (count - 1) as nat),
            _ => Noun::Atom(0),
        }
    }
}

/// The operations of a queue, in order, at most `limit` of them. The
/// queue ends where it is no cell or where its head is the atom zero.
pub open spec fn queue_operations(queue: Noun, limit: nat) -> Seq<u8>
    decreases limit,
{
    if limit == 0 {
        Seq::empty()
    } else {
        match queue {
            Noun::Cell(head, _) => if *head == Noun::Atom(0) {
                Seq::empty()
            } else {
                let op = operation_of(*head);
                seq![op] + queue_operations(skipped(queue, entries_of(op)), (limit - 1) as nat)
            },
            _ => Seq::empty(),
        }
    }
}

/// The rows of a compute table: one row for every operation, and after
/// them the padding row, unless there is no operation.
pub open spec fn compute_rows(ops: Seq<u8>) -> Seq<Noun> {
    let rows = Seq::new(ops.len(), |i: int| operation_row(ops[i]));
    if ops.len() > 0 {
        rows.push(padding_row())
    } else {
        rows
    }
}

/// The operation of a formula.
fn read_operation(formula: &Noun) -> (op: u8)
    ensures
        op == operation_of(*formula),
        op <= 9,
{
    match formula {
        Noun::Cell(head, _) => match &**head {
            Noun::Atom(v) => (*v % 10) as u8,
            _ => 9,
        },
        Noun::Atom(v) => (*v % 10) as u8,
        Noun::BigAtom(_) => 0,
    }
}

/// The number of queue entries that belong to an operation.
fn entry_count(op: u8) -> (n: usize)
    ensures
        n == entries_of(op),
{
    match op {
        0 | 1 => 3,
        2 | 8 | 9 => 5,
        3 | 4 | 7 => 4,
        5 => 5,
        6 => 6,
        _ => 3,
    }
}

/// Skips `count` entries of the queue. `None` stands for a queue that ended
/// before.
fn skip_entries(queue: &Noun, count: usize) -> (r: Option<&Noun>)
    ensures
        match r {
            Some(rest) => skipped(*queue, count as nat) == *rest,
            None => skipped(*queue, count as nat) == Noun::Atom(0),
        },
{
    let mut current: &Noun = queue;
    let mut left: usize = count;
    while left > 0
        invariant
            skipped(*queue, count as nat) == skipped(*current, left as nat),
        decreases left,
    {
        match current {
            Noun::Cell(_, tail) => {
                current = &**tail;
            },
            _ => {
                return None;
            },
        }
        left = left - 1;
    }
    Some(current)
}

/// The rows of the compute table for a queue, as a list.
pub fn process_compute_queue(queue: &Noun) -> (rows: Noun)
    ensures
        rows == noun_list(compute_rows(queue_operations(*queue, MAX_ROWS as nat))),
{
    let mut rows: Vec<Noun> = Vec::new();
    let mut current: &Noun = queue;
    let mut done = false;
    let ghost mut ops: Seq<u8> = Seq::empty();
    proof {
        assert(ops + queue_operations(*queue, MAX_ROWS as nat) =~= queue_operations(
            *queue,
            MAX_ROWS as nat,
        ));
    }
    while !done && rows.len() < MAX_ROWS
        invariant
            rows@.len() == ops.len(),
            rows@.len() <= MAX_ROWS,
            forall|i: int| 0 <= i < ops.len() ==> #[trigger] rows@[i] == operation_row(ops[i]),
            queue_operations(*queue, MAX_ROWS as nat) == ops + if done {
                Seq::<u8>::empty()
            } else {
                queue_operations(*current, (MAX_ROWS - rows@.len()) as nat)
            },
        decreases
                if done {
                    0int
                } else {
                    MAX_ROWS - rows@.len() + 1
                },
    {
        match current {
            Noun::Cell(head, _) => {
                if head.is_null() {
                    done = true;
                } else {
                    let op = read_operation(&**head);
                    let row = create_operation_row(op);
                    let ghost rest = queue_operations(
                        skipped(*current, entries_of(op)),
                        (MAX_ROWS - rows@.len() - 1) as nat,
                    );
                    proof {
                        assert(ops + (seq![op] + rest) =~= ops.push(op) + rest);
                        ops = ops.push(op);
                    }
                    rows.push(row);
                    match skip_entries(current, entry_count(op)) {
                        Some(next) => {
                            current = next;
                        },
                        None => {
                            proof {
                                assert(rest =~= Seq::<u8>::empty()) by {
                                    reveal_with_fuel(queue_operations, 2);
                                }
                            }
                            done = true;
                        },
                    }
                }
            },
            _ => {
                done = true;
            },
        }
    }
    proof {
        assert(ops + Seq::<u8>::empty() =~= ops);
        assert(queue_operations(*queue, MAX_ROWS as nat) =~= ops);
    }
    if rows.len() > 0 {
        rows.push(create_padding_row());
    }
    proof {
        assert(rows@ =~= compute_rows(ops));
    }
    rows_to_list(rows)
}

/// The table structure of a table: the table itself and two empty places
/// for its functions.
pub fn create_table_dat(table_mary: Noun, name: &str) -> (r: Noun)
    ensures
        r == pair(table_mary, pair(Noun::Atom(0), Noun::Atom(0))),
{
    let table_funcs = safe_d(0);
    let verifier_funcs = safe_d(0);
    Noun::cell(table_mary, Noun::cell(table_funcs, verifier_funcs))
}

/// The compute table of a trace: its header and the rows for the queue,
/// which is the head of the trace.
pub open spec fn compute_table(fock_return: Noun) -> Option<Noun> {
    match part_at(fock_return, 2) {
        Some(queue) => Some(
            pair(
                header_of(COMPUTE_NAME, 11, 57, 6, 74),
                noun_list(compute_rows(queue_operations(queue, MAX_ROWS as nat))),
            ),
        ),
        None => None,
    }
}

/// The memory table: its header and no rows.
pub open spec fn memory_table() -> Noun {
    pair(header_of(MEMORY_NAME, 8, 0, 5, 13), Noun::Atom(0))
}

/// Builds the compute table of a trace. Fails if the trace has no queue.
pub fn build_compute_table(fock_return: &Noun) -> (r: Result<Noun, JetError>)
    ensures
        match r {
            Ok(table) => compute_table(*fock_return) == Some(table),
            Err(e) => compute_table(*fock_return) is None && e == JetError::BadArguments,
        },
{
    let queue = match slot(fock_return, 2) {
        Some(q) => q,
        None => {
            return Err(JetError::BadArguments);
        },
    };
    let header = create_compute_header();
    let rows = process_compute_queue(queue);
    Ok(Noun::cell(header, rows))
}

/// Builds the memory table.
pub fn build_memory_table() -> (r: Noun)
    ensures
        r == memory_table(),
{
    let header = create_memory_header();
    let empty_rows = safe_d(0);
    Noun::cell(header, empty_rows)
}

/// What the table operation returns for a subject. The sample is the part
/// at axis six: the trace and a list of table names. With no names given
/// the result is the list of the compute and the memory table, each in its
/// table structure.
pub open spec fn table_dats(subject: Noun) -> Result<Noun, JetError> {
    match part_at(subject, 6) {
        None => Err(JetError::BadArguments),
        Some(arg) => match (part_at(arg, 2), part_at(arg, 3)) {
            (Some(fock_return), Some(names)) => if names == Noun::Atom(0) {
                match compute_table(fock_return) {
                    Some(compute) => Ok(
                        noun_list(
                            seq![
                                pair(compute, pair(Noun::Atom(0), Noun::Atom(0))),
                                pair(memory_table(), pair(Noun::Atom(0), Noun::Atom(0))),
                            ],
                        ),
                    ),
                    None => Err(JetError::BadArguments),
                }
            } else {
                Err(JetError::Punt)
            },
            _ => Err(JetError::BadArguments),
        },
    }
}

/// Builds the tables of a trace.
///
/// Fails for a subject without a sample of a trace and a list of names,
/// and for a trace without a queue; a list of names that is not empty is
/// left to the interpreter.
pub fn build_table_dats_jet(subject: &Noun) -> (r: Result<Noun, JetError>)
    ensures
        r == table_dats(*subject),
{
    let arg = match slot(subject, 6) {
        Some(a) => a,
        None => {
            return Err(JetError::BadArguments);
        },
    };
    let fock_return = match slot(arg, 2) {
        Some(f) => f,
        None => {
            return Err(JetError::BadArguments);
        },
    };
    let override_noun = match slot(arg, 3) {
        Some(o) => o,
        None => {
            proof {
                // the sample is a cell, or the trace would be missing too
                assert(part_at(*arg, 3) is None);
            }
            return Err(JetError::BadArguments);
        },
    };
    let build_all = override_noun.is_null();
    if !build_all {
        return Err(JetError::Punt);
    }
    let mut tables: Vec<Noun> = Vec::new();
    let compute_table = match build_compute_table(fock_return) {
        Ok(t) => t,
        Err(e) => {
            return Err(e);
        },
    };
    tables.push(create_table_dat(compute_table, "compute"));
    let memory_table = build_memory_table();
    tables.push(create_table_dat(memory_table, "memory"));
    proof {
        assert(tables@ =~= seq![
            pair(compute_table, pair(Noun::Atom(0), Noun::Atom(0))),
            pair(memory_table, pair(Noun::Atom(0), Noun::Atom(0))),
        ]);
    }
    Ok(vec_to_list(tables))
}

/// The cores between the polynomial operations and the table operation
/// in the registry of the interpreter, outermost first, and the name of
/// the table operation.
pub open spec fn table_path_tail() -> Seq<Seq<char>> {
    seq![
        "ext-field"@,
        "misc-lib"@,
        "proof-lib"@,
        "utils"@,
        "fri"@,
        "table-lib"@,
        "stark-core"@,
        "fock-core"@,
        "pow"@,
        "stark-engine"@,
        "stark-prover"@,
        "build-table-dats"@,
    ]
}

/// The names under which the table operation is registered with the
/// interpreter: the cores above it, outermost first, then its own name.
pub fn table_hot_path() -> (path: Vec<&'static str>)
    ensures
        names(path@) == core_path() + table_path_tail(),
{
    let mut path: Vec<&'static str> = Vec::new();
    path.push("one");
    path.push("two");
    path.push("tri");
    path.push("qua");
    path.push("pen");
    path.push("zeke");
    path.push("ext-field");
    path.push("misc-lib");
    path.push("proof-lib");
    path.push("utils");
    path.push("fri");
    path.push("table-lib");
    path.push("stark-core");
    path.push("fock-core");
    path.push("pow");
    path.push("stark-engine");
    path.push("stark-prover");
    path.push("build-table-dats");
    proof {
        assert(names(path@) =~= core_path() + table_path_tail());
    }
    path
}

} // verus!
