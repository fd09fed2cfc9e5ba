//! The two payloads: a work request and the outcome of one.

use crate::codec::{encode_i32, encode_string, encode_u32, take_i32, take_string, take_u32};
use crate::packable::{TiPack, TiUnPack};
use crate::wire::{
    i32_bits, i32_of_bits, le_bytes, lemma_i32_bits, lemma_i32_of_bits, lemma_le_bytes_len,
    lemma_le_value_of_bytes, lemma_radix_values, lemma_split_str_cut_short,
    lemma_split_str_is_inverse, lemma_split_str_of_wire, lemma_split_uint_is_inverse,
    lemma_split_uint_of_wire, split_str, split_uint, str_wire,
};
use vstd::prelude::*;
use vstd::std_specs::cmp::PartialEqSpecImpl;
use vstd::utf8::*;

verus! {

/// A work request.
#[derive(Debug)]
pub struct Task {
    /// The identifier that the caller gave the task.
    pub task_id: i32,
    /// The name of the product to work on.
    pub product_name: String,
}

/// A work request as a value.
pub struct TaskView {
    pub task_id: i32,
    pub product_name: Seq<char>,
}

impl View for Task {
    type V = TaskView;

    open spec fn view(&self) -> TaskView {
        TaskView { task_id: self.task_id, product_name: self.product_name@ }
    }
}

/// The encoding of a task: its identifier, then its product name.
pub open spec fn task_wire(task: TaskView) -> Seq<u8> {
    le_bytes(i32_bits(task.task_id), 4) + str_wire(task.product_name)
}

/// The task that `bytes` encode: an identifier and a product name, with
/// nothing missing and nothing left over.
pub open spec fn parse_task(bytes: Seq<u8>) -> Option<TaskView> {
    match split_uint(bytes, 4) {
        Some((id, after_id)) => match split_str(after_id) {
            Some((product_name, rest)) => {
                if rest.len() == 0 {
                    Some(TaskView { task_id: i32_of_bits(id), product_name })
                } else {
                    None
                }
            },
            None => None,
        },
        None => None,
    }
}

impl PartialEq for Task {
    /// Two tasks are equal when their identifiers and their product names are.
    fn eq(&self, other: &Task) -> (equal: bool) {
        self.task_id == other.task_id && self.product_name == other.product_name
    }
}

impl PartialEqSpecImpl for Task {
    open spec fn obeys_eq_spec() -> bool {
        true
    }

    open spec fn eq_spec(&self, other: &Task) -> bool {
        self@ == other@
    }
}

impl Task {
    /// A task with the given identifier and product name.
    pub fn new(task_id: i32, product_name: String) -> (task: Task)
        ensures
            task.task_id == task_id,
            task.product_name == product_name,
    {
        Task { task_id, product_name }
    }
}

impl TiPack for Task {
    open spec fn wire(&self) -> Seq<u8> {
        task_wire(self@)
    }

    open spec fn encodable(&self) -> bool {
        true
    }

    /// Encodes the task; this always succeeds.
    fn pack(&self) -> (r: Result<Vec<u8>, String>)
        ensures
            r is Ok,
            self@.fits(),
    {
        let mut out = encode_i32(self.task_id)?;
        let mut name = encode_string(&self.product_name)?;
        out.append(&mut name);
        Ok(out)
    }
}

impl TiUnPack for Task {
    open spec fn parse(bytes: Seq<u8>) -> Option<TaskView> {
        parse_task(bytes)
    }

    /// Decodes a task; fails exactly on the inputs that encode none.
    fn unpack(encoded: &[u8]) -> (r: Result<Task, String>)
        ensures
            r is Err ==> parse_task(encoded@) is None,
    {
        let (task_id, after_id) = take_i32(encoded)?;
        let (product_name, rest) = take_string(after_id)?;
        if rest.len() != 0 {
            return Err("bytes remain after the task".to_string());
        }
        proof {
            lemma_i32_bits(task_id);
        }
        Ok(Task { task_id, product_name })
    }
}

/// The outcome of a task: a value on success, a message on failure.
#[derive(Debug)]
pub struct TaskResult {
    /// The identifier of the task that this is the outcome of.
    pub task_id: i32,
    /// The value that the task produced, or why it produced none.
    pub result: Result<i32, String>,
}

/// The outcome of a task as a value.
pub struct TaskResultView {
    pub task_id: i32,
    pub result: Result<i32, Seq<char>>,
}

impl View for TaskResult {
    type V = TaskResultView;

    open spec fn view(&self) -> TaskResultView {
        TaskResultView {
            task_id: self.task_id,
            result: match self.result {
                Ok(value) => Ok(value),
                Err(message) => Err(message@),
            },
        }
    }
}

/// The encoding of an outcome: the identifier, then the tag of the arm (0
/// for success, 1 for failure) in four bytes, then what the arm holds.
pub open spec fn task_result_wire(outcome: TaskResultView) -> Seq<u8> {
    le_bytes(i32_bits(outcome.task_id), 4) + match outcome.result {
        Ok(value) => le_bytes(0, 4) + le_bytes(i32_bits(value), 4),
        Err(message) => le_bytes(1, 4) + str_wire(message),
    }
}

/// The outcome that `bytes` encode: an identifier, the tag of an arm and
/// what that arm holds, with nothing missing and nothing left over.
pub open spec fn parse_task_result(bytes: Seq<u8>) -> Option<TaskResultView> {
    match split_uint(bytes, 4) {
        Some((id, after_id)) => match split_uint(after_id, 4) {
            Some((tag, after_tag)) => {
                if tag == 0 {
                    match split_uint(after_tag, 4) {
                        Some((value, rest)) => {
                            if rest.len() == 0 {
                                Some(
                                    TaskResultView {
                                        task_id: i32_of_bits(id),
                                        result: Ok(i32_of_bits(value)),
                                    },
                                )
                            } else {
                                None
                            }
                        },
                        None => None,
                    }
                } else if tag == 1 {
                    match split_str(after_tag) {
                        Some((message, rest)) => {
                            if rest.len() == 0 {
                                Some(
                                    TaskResultView {
                                        task_id: i32_of_bits(id),
                                        result: Err(message),
                                    },
                                )
                            } else {
                                None
                            }
                        },
                        None => None,
                    }
                } else {
                    None
                }
            },
            None => None,
        },
        None => None,
    }
}

impl PartialEq for TaskResult {
    /// Two outcomes are equal when their identifiers are, they took the same
    /// arm, and what the arms hold is equal.
    fn eq(&self, other: &TaskResult) -> (equal: bool) {
        self.task_id == other.task_id && match (&self.result, &other.result) {
            (Ok(mine), Ok(theirs)) => *mine == *theirs,
            (Err(mine), Err(theirs)) => *mine == *theirs,
            _ => false,
        }
    }
}

impl PartialEqSpecImpl for TaskResult {
    open spec fn obeys_eq_spec() -> bool {
        true
    }

    open spec fn eq_spec(&self, other: &TaskResult) -> bool {
        self@ == other@
    }
}

impl TaskResult {
    /// The outcome `result` of the task `task_id`.
    pub fn new(task_id: i32, result: Result<i32, String>) -> (outcome: TaskResult)
        ensures
            outcome.task_id == task_id,
            outcome.result == result,
    {
        TaskResult { task_id, result }
    }
}

impl TiPack for TaskResult {
    open spec fn wire(&self) -> Seq<u8> {
        task_result_wire(self@)
    }

    open spec fn encodable(&self) -> bool {
        true
    }

    /// Encodes the outcome; this always succeeds.
    fn pack(&self) -> (r: Result<Vec<u8>, String>)
        ensures
            r is Ok,
            self@.fits(),
    {
        let mut out = encode_i32(self.task_id)?;
        match &self.result {
            Ok(value) => {
                let mut tag = encode_u32(0)?;
                let mut held = encode_i32(*value)?;
                out.append(&mut tag);
                out.append(&mut held);
            },
            Err(message) => {
                let mut tag = encode_u32(1)?;
                let mut held = encode_string(message)?;
                out.append(&mut tag);
                out.append(&mut held);
            },
        }
        assert(out@ =~= task_result_wire(self@));
        Ok(out)
    }
}

impl TiUnPack for TaskResult {
    open spec fn parse(bytes: Seq<u8>) -> Option<TaskResultView> {
        parse_task_result(bytes)
    }

    /// Decodes an outcome; fails exactly on the inputs that encode none.
    fn unpack(encoded: &[u8]) -> (r: Result<TaskResult, String>)
        ensures
            r is Err ==> parse_task_result(encoded@) is None,
    {
        let (task_id, after_id) = take_i32(encoded)?;
        let (tag, after_tag) = take_u32(after_id)?;
        proof {
            lemma_i32_bits(task_id);
        }
        if tag == 0 {
            let (value, rest) = take_i32(after_tag)?;
            if rest.len() != 0 {
                return Err("bytes remain after the outcome".to_string());
            }
            proof {
                lemma_i32_bits(value);
            }
            Ok(TaskResult { task_id, result: Ok(value) })
        } else if tag == 1 {
            let (message, rest) = take_string(after_tag)?;
            if rest.len() != 0 {
                return Err("bytes remain after the outcome".to_string());
            }
            Ok(TaskResult { task_id, result: Err(message) })
        } else {
            Err("unknown outcome tag".to_string())
        }
    }
}

impl TaskView {
    /// The length of the product name's UTF-8 form can be written in eight
    /// bytes. This holds of every `Task`, as `pack` states.
    pub open spec fn fits(self) -> bool {
        encode_utf8(self.product_name).len() <= u64::MAX
    }
}

impl TaskResultView {
    /// The length of the failure message's UTF-8 form, where there is one,
    /// can be written in eight bytes. This holds of every `TaskResult`, as
    /// `pack` states.
    pub open spec fn fits(self) -> bool {
        match self.result {
            Ok(_) => true,
            Err(message) => encode_utf8(message).len() <= u64::MAX,
        }
    }
}

/// Decoding the encoding of a task gives the task back.
pub proof fn lemma_task_round_trip(task: TaskView)
    requires
        task.fits(),
    ensures
        parse_task(task_wire(task)) == Some(task),
{
    let name = str_wire(task.product_name);
    lemma_radix_values();
    lemma_i32_bits(task.task_id);
    lemma_split_uint_of_wire(i32_bits(task.task_id), 4, name);
    lemma_split_str_of_wire(task.product_name, Seq::empty());
    assert(name =~= name + Seq::<u8>::empty());
}

/// Only its own encoding decodes to a task.
pub proof fn lemma_task_parse_is_inverse(bytes: Seq<u8>, task: TaskView)
    requires
        parse_task(bytes) == Some(task),
    ensures
        task.fits(),
        task_wire(task) == bytes,
{
    let (id, after_id) = split_uint(bytes, 4)->0;
    let (name, rest) = split_str(after_id)->0;
    lemma_radix_values();
    lemma_split_uint_is_inverse(bytes, 4, id, after_id);
    lemma_split_str_is_inverse(after_id, name, rest);
    lemma_i32_of_bits(id);
    assert(bytes =~= task_wire(task));
}

/// An encoding of a task that was cut short decodes to nothing.
pub proof fn lemma_task_cut_short(task: TaskView, kept: nat)
    requires
        task.fits(),
        kept < task_wire(task).len(),
    ensures
        parse_task(task_wire(task).take(kept as int)) is None,
{
    let name = str_wire(task.product_name);
    let cut = task_wire(task).take(kept as int);
    lemma_radix_values();
    lemma_le_bytes_len(i32_bits(task.task_id), 4);
    if kept >= 4 {
        assert(cut.skip(4) =~= name.take(kept - 4));
        lemma_split_str_cut_short(task.product_name, (kept - 4) as nat);
    }
}

/// Fewer than twelve bytes, the length of a task with an empty name, decode to no task.
pub proof fn lemma_task_shortest(bytes: Seq<u8>)
    requires
        bytes.len() < 12,
    ensures
        parse_task(bytes) is None,
{
}

/// Decoding the encoding of an outcome gives the outcome back.
pub proof fn lemma_task_result_round_trip(outcome: TaskResultView)
    requires
        outcome.fits(),
    ensures
        parse_task_result(task_result_wire(outcome)) == Some(outcome),
{
    lemma_radix_values();
    lemma_i32_bits(outcome.task_id);
    match outcome.result {
        Ok(value) => {
            let held = le_bytes(i32_bits(value), 4);
            lemma_i32_bits(value);
            lemma_split_uint_of_wire(i32_bits(outcome.task_id), 4, le_bytes(0, 4) + held);
            lemma_split_uint_of_wire(0, 4, held);
            lemma_split_uint_of_wire(i32_bits(value), 4, Seq::empty());
            assert(held =~= held + Seq::<u8>::empty());
        },
        Err(message) => {
            let held = str_wire(message);
            lemma_split_uint_of_wire(i32_bits(outcome.task_id), 4, le_bytes(1, 4) + held);
            lemma_split_uint_of_wire(1, 4, held);
            lemma_split_str_of_wire(message, Seq::empty());
            assert(held =~= held + Seq::<u8>::empty());
        },
    }
}

/// Only its own encoding decodes to an outcome.
pub proof fn lemma_task_result_parse_is_inverse(bytes: Seq<u8>, outcome: TaskResultView)
    requires
        parse_task_result(bytes) == Some(outcome),
    ensures
        outcome.fits(),
        task_result_wire(outcome) == bytes,
{
    let (id, after_id) = split_uint(bytes, 4)->0;
    let (tag, after_tag) = split_uint(after_id, 4)->0;
    lemma_radix_values();
    lemma_split_uint_is_inverse(bytes, 4, id, after_id);
    lemma_split_uint_is_inverse(after_id, 4, tag, after_tag);
    lemma_i32_of_bits(id);
    if tag == 0 {
        let (value, rest) = split_uint(after_tag, 4)->0;
        lemma_split_uint_is_inverse(after_tag, 4, value, rest);
        lemma_i32_of_bits(value);
        assert(bytes =~= task_result_wire(outcome));
    } else {
        let (message, rest) = split_str(after_tag)->0;
        lemma_split_str_is_inverse(after_tag, message, rest);
        assert(bytes =~= task_result_wire(outcome));
    }
}

/// An encoding of an outcome that was cut short decodes to nothing.
pub proof fn lemma_task_result_cut_short(outcome: TaskResultView, kept: nat)
    requires
        outcome.fits(),
        kept < task_result_wire(outcome).len(),
    ensures
        parse_task_result(task_result_wire(outcome).take(kept as int)) is None,
{
    let cut = task_result_wire(outcome).take(kept as int);
    lemma_radix_values();
    lemma_le_bytes_len(i32_bits(outcome.task_id), 4);
    if kept >= 8 {
        match outcome.result {
            Ok(value) => {
                let held = le_bytes(i32_bits(value), 4);
                lemma_le_bytes_len(0, 4);
                lemma_le_bytes_len(i32_bits(value), 4);
                lemma_le_value_of_bytes(0, 4);
                assert(cut.skip(4).take(4) =~= le_bytes(0, 4));
                assert(cut.skip(4).skip(4) =~= held.take(kept - 8));
            },
            Err(message) => {
                let held = str_wire(message);
                lemma_le_bytes_len(1, 4);
                lemma_le_value_of_bytes(1, 4);
                assert(cut.skip(4).take(4) =~= le_bytes(1, 4));
                assert(cut.skip(4).skip(4) =~= held.take(kept - 8));
                lemma_split_str_cut_short(message, (kept - 8) as nat);
            },
        }
    }
}

/// Fewer than twelve bytes, the length of a successful outcome, decode to no outcome.
pub proof fn lemma_task_result_shortest(bytes: Seq<u8>)
    requires
        bytes.len() < 12,
    ensures
        parse_task_result(bytes) is None,
{
}

} // verus!
