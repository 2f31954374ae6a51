use vstd::prelude::*;

use crate::record::File;
use crate::text::digits_val;
use crate::text::is_numeric;
use crate::text::number_body;
use crate::text::parse_index;
use crate::text::trim_spec;
use crate::text::trim_str;

verus! {

/// What the deletion loop decides for one console answer.
///
/// `Quit` ends the loop successfully, `Reprompt` asks again after a
/// non-numeric answer, `Halt` ends the whole loop after an out-of-range
/// number, and `Deleted` carries the record that was removed from the
/// working collection so that the caller can remove the underlying file.
pub enum Action {
    Quit,
    Reprompt,
    Halt,
    Deleted(File),
}

/// The trimmed answer is the token that ends the loop.
pub open spec fn is_done_token(s: Seq<char>) -> bool {
    trim_spec(s) == "done"@
}

/// The trimmed answer is a number a machine word can hold.
pub open spec fn is_number_answer(s: Seq<char>) -> bool {
    is_numeric(trim_spec(s)) && digits_val(number_body(trim_spec(s))) <= usize::MAX
}

/// The number the trimmed answer writes, 1-based.
pub open spec fn answer_number(s: Seq<char>) -> int {
    digits_val(number_body(trim_spec(s)))
}

/// The working collection after a swap removal at `i`: the last record moves
/// into the vacated slot.
pub open spec fn swap_removed(s: Seq<File>, i: int) -> Seq<File> {
    s.update(i, s.last()).drop_last()
}

/// Answering `y` (after trimming, exactly) keeps every file.
pub fn wants_keep_all(answer: &str) -> (b: bool)
    ensures
        b == (trim_spec(answer@) == "y"@),
{
    let t = trim_str(answer);
    let y = String::from_str("y");
    t == y
}

/// One round of the deletion loop: reads the console answer and either ends
/// the loop (`done`), asks again (non-numeric), halts on an out-of-range
/// number while leaving the collection unchanged, or removes the chosen
/// record (1-based) from the collection by a swap removal and hands it back.
pub fn deletion_step(files: &mut Vec<File>, answer: &str) -> (a: Action)
    ensures
        is_done_token(answer@) ==> a is Quit && final(files)@ == old(files)@,
        !is_done_token(answer@) && !is_number_answer(answer@) ==> a is Reprompt
            && final(files)@ == old(files)@,
        !is_done_token(answer@) && is_number_answer(answer@)
            && !(1 <= answer_number(answer@) <= old(files)@.len()) ==> a is Halt
            && final(files)@ == old(files)@,
        !is_done_token(answer@) && is_number_answer(answer@)
            && 1 <= answer_number(answer@) <= old(files)@.len() ==> {
            &&& a matches Action::Deleted(f) && f == old(files)@[answer_number(answer@) - 1]
            &&& final(files)@ == swap_removed(old(files)@, answer_number(answer@) - 1)
        },
{
    let t = trim_str(answer);
    let done = String::from_str("done");
    if t == done {
        return Action::Quit;
    }
    match parse_index(t.as_str()) {
        None => Action::Reprompt,
        Some(index) => {
            if index == 0 || index > files.len() {
                Action::Halt
            } else {
                let f = files.swap_remove(index - 1);
                Action::Deleted(f)
            }
        },
    }
}

} // verus!
