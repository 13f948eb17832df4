//! What a command-line client decides before it talks to a node: whether
//! instructions are submitted or written out, how piped instructions are
//! joined with new ones, and how a query result that came in columns is
//! laid out in rows.

use vstd::prelude::*;
use crate::isi::InstructionBox;
use crate::sequence::reversed;

verus! {

/// What a transaction carries to be executed.
#[derive(Debug, PartialEq, Eq)]
pub enum Executable {
    /// A compiled smart contract.
    Wasm(Vec<u8>),
    /// Instructions, in the order in which they are to be executed.
    Instructions(Vec<InstructionBox>),
}

/// What is done with an executable in the end.
#[derive(Debug, PartialEq, Eq)]
pub enum Finish {
    /// It is combined into a transaction and submitted.
    Submit(Executable),
    /// Its instructions are written to the output and nothing is submitted.
    Dump(Vec<InstructionBox>),
}

/// Why a command cannot be run with the flags that were given.
#[derive(Clone, Copy, Debug, PartialEq, Eq, Structural)]
pub enum FlagError {
    /// Instructions cannot be piped in or out around a smart contract.
    WasmWithInputOrOutput,
    /// The command reads its own input and cannot take piped instructions.
    InputWithCommandInput,
}

impl FlagError {
    /// The fault in words.
    pub open spec fn reason_text(self) -> Seq<char> {
        match self {
            FlagError::WasmWithInputOrOutput => "Incompatible `--input` `--output` flags with `iroha transaction wasm`"@,
            FlagError::InputWithCommandInput => "Incompatible `--input` flag with the command"@,
        }
    }

    /// The fault in words.
    pub fn reason(&self) -> (r: &'static str)
        ensures
            r@ == self.reason_text(),
    {
        match self {
            FlagError::WasmWithInputOrOutput => "Incompatible `--input` `--output` flags with `iroha transaction wasm`",
            FlagError::InputWithCommandInput => "Incompatible `--input` flag with the command",
        }
    }
}

/// Submit instructions or dump them depending on the flags.
///
/// A smart contract is submitted, unless either flag is set, which is
/// refused. Instructions are preceded by the piped ones where
/// `input_instructions` is set; they are written out where
/// `output_instructions` is set, and submitted where it is not.
pub fn finish(
    input_instructions: bool,
    output_instructions: bool,
    executable: Executable,
    piped: Vec<InstructionBox>,
) -> (r: Result<Finish, FlagError>)
    ensures
        match executable {
            Executable::Wasm(wasm) => if input_instructions || output_instructions {
                r == Err::<Finish, FlagError>(FlagError::WasmWithInputOrOutput)
            } else {
                r == Ok::<Finish, FlagError>(Finish::Submit(Executable::Wasm(wasm)))
            },
            Executable::Instructions(instructions) => {
                let all = if input_instructions {
                    piped@ + instructions@
                } else {
                    instructions@
                };
                if output_instructions {
                    r matches Ok(Finish::Dump(dumped)) && dumped@ == all
                } else {
                    r matches Ok(Finish::Submit(Executable::Instructions(submitted)))
                        && submitted@ == all
                }
            },
        },
{
    let mut instructions = match executable {
        Executable::Wasm(wasm) => {
            if input_instructions || output_instructions {
                return Err(FlagError::WasmWithInputOrOutput);
            }
            return Ok(Finish::Submit(Executable::Wasm(wasm)));
        },
        Executable::Instructions(instructions) => instructions,
    };
    if input_instructions {
        let mut acc = piped;
        acc.append(&mut instructions);
        instructions = acc;
    }
    if output_instructions {
        Ok(Finish::Dump(instructions))
    } else {
        Ok(Finish::Submit(Executable::Instructions(instructions)))
    }
}

/// Whether a command that reads its own input may run: not where
/// instructions are piped in.
pub fn check_command_input(input_instructions: bool) -> (r: Result<(), FlagError>)
    ensures
        r == if input_instructions {
            Err::<(), FlagError>(FlagError::InputWithCommandInput)
        } else {
            Ok::<(), FlagError>(())
        },
{
    if input_instructions {
        Err(FlagError::InputWithCommandInput)
    } else {
        Ok(())
    }
}

/// Row `i` of a result that came in columns: the value at position `i` of
/// every column that is long enough, in the order of the columns.
pub open spec fn row_of<T>(columns: Seq<Vec<T>>, i: int) -> Seq<T>
    decreases columns.len(),
{
    if columns.len() == 0 {
        Seq::empty()
    } else if 0 <= i < columns.last()@.len() {
        row_of(columns.drop_last(), i).push(columns.last()@[i])
    } else {
        row_of(columns.drop_last(), i)
    }
}

/// Lays a result that came in columns out in `rows` rows.
pub fn transpose<T>(columns: Vec<Vec<T>>, rows: usize) -> (r: Vec<Vec<T>>)
    ensures
        r@.len() == rows,
        forall|i: int| 0 <= i < rows ==> (#[trigger] r@[i])@ == row_of(columns@, i),
{
    let ghost all = columns@;
    let mut out: Vec<Vec<T>> = Vec::new();
    let mut made: usize = 0;
    proof {
        assert(all.subrange(0, 0) =~= Seq::<Vec<T>>::empty());
    }
    while made < rows
        invariant
            made <= rows,
            out@.len() == made,
            forall|i: int| 0 <= i < made ==> (#[trigger] out@[i])@ == Seq::<T>::empty(),
        decreases rows - made,
    {
        out.push(Vec::new());
        made = made + 1;
    }
    let count = columns.len();
    let mut pending = reversed(columns);
    let mut c: usize = 0;
    while pending.len() > 0
        invariant
            all.len() == count,
            c + pending@.len() == count,
            forall|k: int| 0 <= k < pending@.len() ==> pending@[k] == all[all.len() - 1 - k],
            out@.len() == rows,
            forall|i: int| 0 <= i < rows ==> (#[trigger] out@[i])@ == row_of(
                all.subrange(0, c as int),
                i,
            ),
        decreases pending.len(),
    {
        let column = match pending.pop() {
            Some(column) => column,
            None => vstd::pervasive::unreached(),
        };
        assert(column == all[c as int]);
        let ghost values = column@;
        let ghost before = all.subrange(0, c as int);
        let height = column.len();
        let mut items = reversed(column);
        let mut i: usize = 0;
        while i < rows && items.len() > 0
            invariant
                i <= rows,
                out@.len() == rows,
                values.len() == height,
                i + items@.len() == height,
                forall|k: int| 0 <= k < items@.len() ==> items@[k] == values[height - 1 - k],
                forall|k: int|
                    0 <= k < rows ==> (#[trigger] out@[k])@ == if k < i {
                        row_of(before, k).push(values[k])
                    } else {
                        row_of(before, k)
                    },
            decreases items.len(),
        {
            let item = match items.pop() {
                Some(item) => item,
                None => vstd::pervasive::unreached(),
            };
            assert(item == values[i as int]);
            let mut row = Vec::new();
            std::mem::swap(&mut row, &mut out[i]);
            row.push(item);
            out[i] = row;
            i = i + 1;
        }
        proof {
            let next = all.subrange(0, c + 1);
            assert(next.drop_last() =~= before);
            assert(next.last() == all[c as int]);
            assert forall|k: int| 0 <= k < rows implies (#[trigger] out@[k])@ == row_of(next, k) by {
                if k < values.len() {
                    assert(k < i);
                } else {
                    assert(k >= i);
                }
            }
        }
        c = c + 1;
    }
    proof {
        assert(all.subrange(0, c as int) =~= all);
    }
    out
}

/// Where every column holds `rows` values, the value in row `i` and column
/// `j` of the rows is the value at position `i` of column `j`.
pub proof fn lemma_full_columns<T>(columns: Seq<Vec<T>>, rows: int, i: int)
    requires
        0 <= i < rows,
        forall|j: int| 0 <= j < columns.len() ==> (#[trigger] columns[j])@.len() == rows,
    ensures
        row_of(columns, i).len() == columns.len(),
        forall|j: int| 0 <= j < columns.len() ==> row_of(columns, i)[j] == (#[trigger] columns[j])@[i],
    decreases columns.len(),
{
    if columns.len() > 0 {
        let init = columns.drop_last();
        assert forall|j: int| 0 <= j < init.len() implies (#[trigger] init[j])@.len() == rows by {
            assert(init[j] == columns[j]);
        }
        lemma_full_columns(init, rows, i);
        assert(columns.last() == columns[columns.len() - 1]);
        assert forall|j: int| 0 <= j < columns.len() implies row_of(columns, i)[j] == (
        #[trigger] columns[j])@[i] by {
            if j < init.len() {
                assert(init[j] == columns[j]);
            }
        }
    }
}

} // verus!
