//! Touched-file normalization and the file-conflict exclusion check.
//!
//! A task's touched files are compared after trimming surrounding
//! Unicode whitespace and folding ASCII upper-case letters to lower
//! case, character by character, exactly as the original `trim` plus
//! ASCII lowercasing; entries that normalize to the empty string never
//! conflict.

use vstd::prelude::*;
use vstd::string::StrSliceExecFns;
use crate::domain::{TaskStatus, TaskV, TeamTask};

verus! {

/// Whether `c` carries the Unicode White_Space property, the set
/// `str::trim` removes.
pub open spec fn is_ws_char(c: char) -> bool {
    let u = c as u32;
    ||| u == 0x9
    ||| u == 0xA
    ||| u == 0xB
    ||| u == 0xC
    ||| u == 0xD
    ||| u == 0x20
    ||| u == 0x85
    ||| u == 0xA0
    ||| u == 0x1680
    ||| (0x2000 <= u && u <= 0x200A)
    ||| u == 0x2028
    ||| u == 0x2029
    ||| u == 0x202F
    ||| u == 0x205F
    ||| u == 0x3000
}

/// `c` with an ASCII upper-case letter folded to lower case.
pub open spec fn lower_char(c: char) -> char {
    let u = c as u32;
    if 65 <= u && u <= 90 {
        (((u + 32) as u8) as char)
    } else {
        c
    }
}

/// Drops leading whitespace characters.
pub open spec fn trim_start_chars(s: Seq<char>) -> Seq<char>
    decreases s.len(),
{
    if s.len() > 0 && is_ws_char(s[0]) {
        trim_start_chars(s.drop_first())
    } else {
        s
    }
}

/// Drops trailing whitespace characters.
pub open spec fn trim_end_chars(s: Seq<char>) -> Seq<char>
    decreases s.len(),
{
    if s.len() > 0 && is_ws_char(s[s.len() - 1]) {
        trim_end_chars(s.drop_last())
    } else {
        s
    }
}

/// The conflict key of a touched-file path: trimmed, then lowercased.
/// Kept opaque: the conflict logic only ever compares keys.
#[verifier::opaque]
pub open spec fn file_key(s: Seq<char>) -> Seq<char> {
    trim_end_chars(trim_start_chars(s)).map_values(|c: char| lower_char(c))
}

proof fn lemma_trim_start_idx(s: Seq<char>, k: int)
    requires
        0 <= k <= s.len(),
        forall|j: int| 0 <= j < k ==> is_ws_char(s[j]),
        k == s.len() || !is_ws_char(s[k]),
    ensures
        trim_start_chars(s) == s.subrange(k, s.len() as int),
    decreases k,
{
    if k == 0 {
        assert(s.subrange(0, s.len() as int) =~= s);
    } else {
        let d = s.drop_first();
        lemma_trim_start_idx(d, k - 1);
        assert(d.subrange(k - 1, d.len() as int) =~= s.subrange(k, s.len() as int));
    }
}

proof fn lemma_trim_end_idx(s: Seq<char>, e: int)
    requires
        0 <= e <= s.len(),
        forall|j: int| e <= j < s.len() ==> is_ws_char(s[j]),
        e == 0 || !is_ws_char(s[e - 1]),
    ensures
        trim_end_chars(s) == s.subrange(0, e),
    decreases s.len() - e,
{
    if e == s.len() {
        if s.len() > 0 && is_ws_char(s[s.len() - 1]) {
            assert(false);
        }
        assert(s.subrange(0, e) =~= s);
    } else {
        let d = s.drop_last();
        lemma_trim_end_idx(d, e);
        assert(d.subrange(0, e) =~= s.subrange(0, e));
    }
}

/// Computes the conflict key of one touched-file path.
pub fn file_key_exec(s: &str) -> (r: Vec<char>)
    ensures
        r@ == file_key(s@),
{
    let n: usize = s.unicode_len();
    let mut start: usize = 0;
    while start < n && is_ws_exec(s.get_char(start))
        invariant
            start <= n,
            n == s@.len(),
            forall|j: int| 0 <= j < start ==> is_ws_char(s@[j]),
        decreases n - start,
    {
        start = start + 1;
    }
    let mut end: usize = n;
    while end > start && is_ws_exec(s.get_char(end - 1))
        invariant
            start <= end <= n,
            n == s@.len(),
            forall|j: int| end <= j < n ==> is_ws_char(s@[j]),
        decreases end,
    {
        end = end - 1;
    }
    proof {
        lemma_trim_start_idx(s@, start as int);
        let t = s@.subrange(start as int, n as int);
        lemma_trim_end_idx(t, end - start);
        assert(t.subrange(0, end - start) =~= s@.subrange(start as int, end as int));
    }
    let mut r: Vec<char> = Vec::new();
    let mut i: usize = start;
    while i < end
        invariant
            start <= i <= end <= n,
            n == s@.len(),
            r@.len() == i - start,
            forall|j: int| 0 <= j < r@.len() ==> r@[j] == lower_char(s@[start + j]),
        decreases end - i,
    {
        r.push(lower_exec(s.get_char(i)));
        i = i + 1;
    }
    proof {
        reveal(file_key);
        assert(r@ =~= s@.subrange(start as int, end as int).map_values(
            |c: char| lower_char(c),
        ));
    }
    r
}

fn is_ws_exec(c: char) -> (r: bool)
    ensures
        r == is_ws_char(c),
{
    let u = c as u32;
    u == 0x9 || u == 0xA || u == 0xB || u == 0xC || u == 0xD || u == 0x20 || u == 0x85
        || u == 0xA0 || u == 0x1680 || (0x2000 <= u && u <= 0x200A) || u == 0x2028
        || u == 0x2029 || u == 0x202F || u == 0x205F || u == 0x3000
}

fn lower_exec(c: char) -> (r: char)
    ensures
        r == lower_char(c),
{
    let u = c as u32;
    if 65 <= u && u <= 90 {
        ((u + 32) as u8) as char
    } else {
        c
    }
}

fn key_eq(a: &Vec<char>, b: &Vec<char>) -> (r: bool)
    ensures
        r == (a@ == b@),
{
    if a.len() != b.len() {
        return false;
    }
    let mut i: usize = 0;
    while i < a.len()
        invariant
            i <= a.len(),
            a@.len() == b@.len(),
            forall|j: int| 0 <= j < i ==> a@[j] == b@[j],
        decreases a.len() - i,
    {
        if a[i] != b[i] {
            return false;
        }
        i = i + 1;
    }
    proof {
        assert(a@ =~= b@);
    }
    true
}

/// Two tasks conflict when a nonempty conflict key occurs in both
/// touched-file lists.
pub open spec fn tasks_conflict(a: TaskV, b: TaskV) -> bool {
    exists|i: int, j: int|
        0 <= i < a.touched_files.len() && 0 <= j < b.touched_files.len() && file_key(
            a.touched_files[i],
        ).len() > 0 && file_key(a.touched_files[i]) == file_key(b.touched_files[j])
}

/// Whether the task at `ti` conflicts with any other in-progress task.
pub open spec fn claim_conflict(tasks: Seq<TaskV>, ti: int) -> bool {
    exists|o: int|
        0 <= o < tasks.len() && o != ti && tasks[o].status == TaskStatus::InProgress
            && tasks_conflict(tasks[ti], tasks[o])
}

/// Collects the conflict key of each touched file of a task, in order.
fn task_keys(task: &TeamTask) -> (r: Vec<Vec<char>>)
    ensures
        keys_of(r@, task@),
{
    let mut r: Vec<Vec<char>> = Vec::new();
    let mut f: usize = 0;
    while f < task.touched_files.len()
        invariant
            f <= task.touched_files.len(),
            task.touched_files@.len() == task@.touched_files.len(),
            forall|j: int|
                0 <= j < task.touched_files@.len() ==> #[trigger] task@.touched_files[j]
                    == task.touched_files@[j]@,
            r@.len() == f,
            forall|g: int|
                0 <= g < f ==> #[trigger] r@[g]@ == file_key(task@.touched_files[g]),
        decreases task.touched_files.len() - f,
    {
        let key = file_key_exec(task.touched_files[f].as_str());
        r.push(key);
        f = f + 1;
    }
    r
}

fn keys_contain(keys: &Vec<Vec<char>>, key: &Vec<char>) -> (r: bool)
    ensures
        r == exists|k: int| 0 <= k < keys@.len() && keys@[k]@ == key@,
{
    let mut i: usize = 0;
    while i < keys.len()
        invariant
            i <= keys.len(),
            forall|k: int| 0 <= k < i ==> keys@[k]@ != key@,
        decreases keys.len() - i,
    {
        if key_eq(&keys[i], key) {
            return true;
        }
        i = i + 1;
    }
    false
}

/// `cand` holds exactly the conflict keys of `a`'s touched files.
spec fn keys_of(cand: Seq<Vec<char>>, a: TaskV) -> bool {
    &&& cand.len() == a.touched_files.len()
    &&& forall|f: int|
        0 <= f < cand.len() ==> #[trigger] cand[f]@ == file_key(a.touched_files[f])
}

/// Whether claiming the task at `candidate_idx` would conflict with an
/// in-progress task's touched files.
pub fn has_file_conflict(tasks: &Vec<TeamTask>, candidate_idx: usize) -> (r: bool)
    requires
        candidate_idx < tasks@.len(),
    ensures
        r == claim_conflict(tasks@.map_values(|t: TeamTask| t@), candidate_idx as int),
{
    let ghost tv = tasks@.map_values(|t: TeamTask| t@);
    let cand = task_keys(&tasks[candidate_idx]);
    let mut o: usize = 0;
    while o < tasks.len()
        invariant
            o <= tasks.len(),
            candidate_idx < tasks@.len(),
            tv == tasks@.map_values(|t: TeamTask| t@),
            keys_of(cand@, tv[candidate_idx as int]),
            forall|p: int|
                0 <= p < o && p != candidate_idx && tv[p].status == TaskStatus::InProgress
                    ==> !tasks_conflict(tv[candidate_idx as int], tv[p]),
        decreases tasks.len() - o,
    {
        if o != candidate_idx && task_status_is_in_progress(&tasks[o]) {
            if conflicts_with_other(&cand, Ghost(tv[candidate_idx as int]), &tasks[o]) {
                proof {
                    assert(tv[o as int] == tasks@[o as int]@);
                    assert(tasks_conflict(tv[candidate_idx as int], tv[o as int]));
                    assert(claim_conflict(tv, candidate_idx as int));
                }
                return true;
            }
        }
        o = o + 1;
    }
    false
}

fn conflicts_with_other(cand: &Vec<Vec<char>>, a: Ghost<TaskV>, other: &TeamTask) -> (r: bool)
    requires
        keys_of(cand@, a@),
    ensures
        r == tasks_conflict(a@, other@),
{
    let files = &other.touched_files;
    let mut j: usize = 0;
    while j < files.len()
        invariant
            j <= files@.len(),
            keys_of(cand@, a@),
            files@.map_values(|s: String| s@) == other@.touched_files,
            forall|q: int|
                0 <= q < j ==> !(exists|f: int|
                    0 <= f < a@.touched_files.len() && file_key(a@.touched_files[f]).len() > 0
                        && file_key(a@.touched_files[f]) == file_key(
                        #[trigger] other@.touched_files[q],
                    )),
        decreases files.len() - j,
    {
        let key = file_key_exec(files[j].as_str());
        proof {
            assert(key@ == file_key(other@.touched_files[j as int]));
        }
        if key.len() > 0 && keys_contain(&cand, &key) {
            proof {
                let k = choose|k: int| 0 <= k < cand@.len() && cand@[k]@ == key@;
                assert(file_key(a@.touched_files[k]) == file_key(other@.touched_files[j as int]));
                assert(tasks_conflict(a@, other@));
            }
            return true;
        }
        proof {
            assert forall|f: int|
                0 <= f < a@.touched_files.len() implies !(file_key(a@.touched_files[f]).len() > 0
                    && file_key(a@.touched_files[f]) == file_key(
                    other@.touched_files[j as int],
                )) by {
                if file_key(a@.touched_files[f]).len() > 0 && file_key(a@.touched_files[f])
                    == file_key(other@.touched_files[j as int]) {
                    assert(cand@[f]@ == file_key(a@.touched_files[f]));
                    assert(cand@[f]@ == key@);
                    assert(key@.len() > 0);
                    assert(false);
                }
            }
        }
        j = j + 1;
    }
    proof {
        assert(!tasks_conflict(a@, other@));
    }
    false
}

fn task_status_is_in_progress(task: &TeamTask) -> (r: bool)
    ensures
        r == (task@.status == TaskStatus::InProgress),
{
    task.status == TaskStatus::InProgress
}

} // verus!
