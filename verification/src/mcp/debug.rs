//! Breakpoints and the debugger.

use vstd::prelude::*;

use crate::json::{entry_of, find_entry, Json, JsonEntry};
use crate::mcp::approval::ApprovalDialog;
use crate::mcp::edit::{
    law_nothing_is_replaced_without_a_place, replace_all, replaced_all, stands_at,
};
use crate::text::{
    chars_of, decimal, decimal_of, law_digits_stand_for_their_number, number_of, same, views,
};

verus! {

// ── Breakpoints ──────────────────────────────────────────────────────────────

#[derive(Debug)]
pub struct Breakpoint {
    pub id: Option<usize>,
    pub verified: bool,
    pub message: Option<String>,
    pub line: usize,
    pub column: Option<usize>,
    pub condition: Option<String>,
    pub hit_condition: Option<String>,
    pub log_message: Option<String>,
}

/// A breakpoint that no debugger knows of.
pub open spec fn fresh(line: usize, condition: Option<String>) -> Breakpoint {
    Breakpoint {
        id: None,
        verified: false,
        message: None,
        line,
        column: None,
        condition,
        hit_condition: None,
        log_message: None,
    }
}

/// The breakpoints of a file, in the order in which they were set.
#[derive(Debug)]
pub struct FileBreakpoints {
    pub path: String,
    pub breakpoints: Vec<Breakpoint>,
}

/// A breakpoint as an agent gets it.
#[derive(Debug)]
pub struct BreakpointInfo {
    pub path: String,
    pub line: usize,
    pub column: Option<usize>,
    pub condition: Option<String>,
    pub verified: bool,
    pub id: Option<usize>,
    pub message: Option<String>,
}

pub open spec fn is_bp_info(info: BreakpointInfo, path: Seq<char>, b: Breakpoint) -> bool {
    &&& info.path@ == path
    &&& info.line == b.line
    &&& info.column == b.column
    &&& info.condition == b.condition
    &&& info.verified == b.verified
    &&& info.id == b.id
    &&& info.message == b.message
}

fn copy_text(s: &Option<String>) -> (out: Option<String>)
    ensures
        out == *s,
{
    match s {
        Some(text) => Some(text.clone()),
        None => None,
    }
}

pub fn bp_to_info(path: &str, b: &Breakpoint) -> (info: BreakpointInfo)
    ensures
        is_bp_info(info, path@, *b),
{
    BreakpointInfo {
        path: path.to_string(),
        line: b.line,
        column: b.column,
        condition: copy_text(&b.condition),
        verified: b.verified,
        id: b.id,
        message: copy_text(&b.message),
    }
}

/// The file from `i` on with a path.
pub open spec fn file_at(files: Seq<FileBreakpoints>, path: Seq<char>, i: int) -> Option<int>
    decreases files.len() - i,
{
    if i >= files.len() {
        None
    } else if files[i].path@ == path {
        Some(i)
    } else {
        file_at(files, path, i + 1)
    }
}

/// The first breakpoint from `i` on of a line.
pub open spec fn breakpoint_at(bps: Seq<Breakpoint>, line: usize, i: int) -> Option<int>
    decreases bps.len() - i,
{
    if i >= bps.len() {
        None
    } else if bps[i].line == line {
        Some(i)
    } else {
        breakpoint_at(bps, line, i + 1)
    }
}

/// The breakpoints of all files.
#[derive(Debug)]
pub struct Breakpoints {
    files: Vec<FileBreakpoints>,
}

/// Why a breakpoint cannot be removed.
#[derive(Clone, Copy, Debug, PartialEq, Eq, Structural)]
pub enum RemoveError {
    NoFile,
    NoLine(usize),
}

impl RemoveError {
    pub fn message(self) -> (text: String)
        ensures
            text@ == match self {
                RemoveError::NoFile => "No breakpoints in that file"@,
                RemoveError::NoLine(line) => "No breakpoint at line "@ + decimal(line as nat),
            },
    {
        match self {
            RemoveError::NoFile => "No breakpoints in that file".to_string(),
            RemoveError::NoLine(line) => {
                let mut text = "No breakpoint at line ".to_string();
                text.append(decimal_of(line as u64).as_str());
                text
            },
        }
    }
}

impl Breakpoints {
    /// The files that have had breakpoints, in the order in which they got them.
    pub closed spec fn files(self) -> Seq<FileBreakpoints> {
        self.files@
    }

    /// No file is there twice.
    pub open spec fn wf(self) -> bool {
        forall|i: int, j: int|
            0 <= i < j < self.files().len() ==> (#[trigger] self.files()[i]).path@ != (
            #[trigger] self.files()[j]).path@
    }

    /// The breakpoints of a file; `None` where it never had any.
    pub open spec fn of(self, path: Seq<char>) -> Option<Seq<Breakpoint>> {
        match file_at(self.files(), path, 0) {
            Some(i) => Some(self.files()[i].breakpoints@),
            None => None,
        }
    }

    pub fn new() -> (r: Breakpoints)
        ensures
            r.files() == Seq::<FileBreakpoints>::empty(),
            r.wf(),
    {
        Breakpoints { files: Vec::new() }
    }

    fn find(&self, path: &str) -> (found: Option<usize>)
        ensures
            match found {
                Some(i) => file_at(self.files(), path@, 0) == Some(i as int) && i
                    < self.files().len() && self.files()[i as int].path@ == path@,
                None => file_at(self.files(), path@, 0) is None && forall|i: int|
                    0 <= i < self.files().len() ==> (#[trigger] self.files()[i]).path@ != path@,
            },
    {
        let mut i: usize = 0;
        while i < self.files.len()
            invariant
                i <= self.files.len(),
                file_at(self.files@, path@, i as int) == file_at(self.files@, path@, 0),
                forall|k: int| 0 <= k < i ==> (#[trigger] self.files@[k]).path@ != path@,
            decreases self.files.len() - i,
        {
            if same(self.files[i].path.as_str(), path) {
                return Some(i);
            }
            i += 1;
        }
        None
    }

    /// Sets a breakpoint, behind those that the file has. Returns its place among
    /// them.
    pub fn set(&mut self, path: &str, line: usize, condition: Option<String>) -> (index: usize)
        requires
            old(self).wf(),
        ensures
            final(self).wf(),
            ({
                let before = match old(self).of(path@) {
                    Some(bps) => bps,
                    None => Seq::empty(),
                };
                &&& final(self).of(path@) == Some(before.push(fresh(line, condition)))
                &&& index == before.len()
            }),
            forall|other: Seq<char>|
                other != path@ ==> #[trigger] final(self).of(other) == old(self).of(other),
    {
        let bp = Breakpoint {
            id: None,
            verified: false,
            message: None,
            line,
            column: None,
            condition,
            hit_condition: None,
            log_message: None,
        };
        let ghost before = self.files@;
        match self.find(path) {
            Some(i) => {
                let index = self.files[i].breakpoints.len();
                self.files[i].breakpoints.push(bp);
                proof {
                    let after = self.files@;
                    assert forall|k: int| 0 <= k < after.len() implies (
                    #[trigger] after[k]).path@ == before[k].path@ by {}
                    lemma_same_paths(before, after, path@, 0);
                    assert forall|other: Seq<char>| other != path@ implies #[trigger] self.of(other)
                        == old(self).of(other) by {
                        lemma_same_paths(before, after, other, 0);
                        lemma_file_at(before, other, 0);
                    }
                }
                index
            },
            None => {
                let mut breakpoints: Vec<Breakpoint> = Vec::new();
                breakpoints.push(bp);
                self.files.push(FileBreakpoints { path: path.to_string(), breakpoints });
                proof {
                    let after = self.files@;
                    lemma_added_file(before, after, path@, 0);
                    assert(after.last().breakpoints@ =~= Seq::empty().push(bp));
                    assert forall|other: Seq<char>| other != path@ implies #[trigger] self.of(other)
                        == old(self).of(other) by {
                        lemma_added_file(before, after, other, 0);
                        lemma_file_at(before, other, 0);
                    }
                }
                0
            },
        }
    }

    /// Removes the first breakpoint of a line.
    pub fn remove(&mut self, path: &str, line: usize) -> (result: Result<(), RemoveError>)
        requires
            old(self).wf(),
        ensures
            final(self).wf(),
            match old(self).of(path@) {
                None => result == Err::<(), RemoveError>(RemoveError::NoFile) && *final(self)
                    == *old(self),
                Some(bps) => match breakpoint_at(bps, line, 0) {
                    None => result == Err::<(), RemoveError>(RemoveError::NoLine(line))
                        && *final(self) == *old(self),
                    Some(i) => result is Ok && final(self).of(path@) == Some(bps.remove(i)),
                },
            },
            forall|other: Seq<char>|
                other != path@ ==> #[trigger] final(self).of(other) == old(self).of(other),
    {
        let ghost before = self.files@;
        let at = match self.find(path) {
            None => {
                return Err(RemoveError::NoFile);
            },
            Some(at) => at,
        };
        let mut i: usize = 0;
        let total = self.files[at].breakpoints.len();
        while i < total && self.files[at].breakpoints[i].line != line
            invariant
                at < self.files@.len(),
                self.files@ == before,
                total == before[at as int].breakpoints@.len(),
                i <= total,
                breakpoint_at(before[at as int].breakpoints@, line, i as int) == breakpoint_at(
                    before[at as int].breakpoints@,
                    line,
                    0,
                ),
            decreases total - i,
        {
            i += 1;
        }
        if i == total {
            return Err(RemoveError::NoLine(line));
        }
        let _ = self.files[at].breakpoints.remove(i);
        proof {
            let after = self.files@;
            assert forall|k: int| 0 <= k < after.len() implies (#[trigger] after[k]).path@
                == before[k].path@ by {}
            lemma_same_paths(before, after, path@, 0);
            assert forall|other: Seq<char>| other != path@ implies #[trigger] self.of(other) == old(
                self).of(other) by {
                lemma_same_paths(before, after, other, 0);
                lemma_file_at(before, other, 0);
            }
        }
        Ok(())
    }

    /// A breakpoint as an agent gets it.
    pub fn info(&self, path: &str, index: usize) -> (info: Option<BreakpointInfo>)
        ensures
            match info {
                Some(info) => self.of(path@) matches Some(bps) && index < bps.len() && is_bp_info(
                    info,
                    path@,
                    bps[index as int],
                ),
                None => match self.of(path@) {
                    Some(bps) => index >= bps.len(),
                    None => true,
                },
            },
    {
        match self.find(path) {
            Some(i) => {
                if index < self.files[i].breakpoints.len() {
                    Some(bp_to_info(path, &self.files[i].breakpoints[index]))
                } else {
                    None
                }
            },
            None => None,
        }
    }

    /// The breakpoints of a file as an agent gets them.
    pub fn list(&self, path: &str) -> (infos: Vec<BreakpointInfo>)
        ensures
            ({
                let bps = match self.of(path@) {
                    Some(bps) => bps,
                    None => Seq::empty(),
                };
                &&& infos@.len() == bps.len()
                &&& forall|i: int|
                    0 <= i < bps.len() ==> is_bp_info(#[trigger] infos@[i], path@, bps[i])
            }),
    {
        let mut infos: Vec<BreakpointInfo> = Vec::new();
        if let Some(at) = self.find(path) {
            let bps = &self.files[at].breakpoints;
            let mut i: usize = 0;
            while i < bps.len()
                invariant
                    i <= bps.len(),
                    infos@.len() == i,
                    forall|k: int|
                        0 <= k < i ==> is_bp_info(#[trigger] infos@[k], path@, bps@[k]),
                decreases bps.len() - i,
            {
                infos.push(bp_to_info(path, &bps[i]));
                i += 1;
            }
        }
        infos
    }

    /// The breakpoints of a file, as they are handed to a debugger.
    pub fn in_file(&self, path: &str) -> (bps: Option<&Vec<Breakpoint>>)
        ensures
            match bps {
                Some(bps) => self.of(path@) == Some(bps@),
                None => self.of(path@) is None,
            },
    {
        match self.find(path) {
            Some(i) => Some(&self.files[i].breakpoints),
            None => None,
        }
    }

    /// Takes over the breakpoints of a file as a debugger has left them, after one was
    /// set or removed.
    pub fn synced(&mut self, path: &str, bps: Vec<Breakpoint>)
        requires
            old(self).wf(),
            old(self).of(path@) is Some,
        ensures
            final(self).wf(),
            final(self).of(path@) == Some(bps@),
            forall|other: Seq<char>|
                other != path@ ==> #[trigger] final(self).of(other) == old(self).of(other),
    {
        let ghost before = self.files@;
        if let Some(i) = self.find(path) {
            self.files[i].breakpoints = bps;
            proof {
                let after = self.files@;
                assert forall|k: int| 0 <= k < after.len() implies (#[trigger] after[k]).path@
                    == before[k].path@ by {}
                lemma_same_paths(before, after, path@, 0);
                assert forall|other: Seq<char>| other != path@ implies #[trigger] self.of(other)
                    == old(self).of(other) by {
                    lemma_same_paths(before, after, other, 0);
                    lemma_file_at(before, other, 0);
                }
            }
        }
    }

    /// What an agent gets to know of the breakpoint that was set at `index`: how it is
    /// once the debugger has answered. `answer` holds the breakpoints of the file as the
    /// debugger left them, where one is active.
    pub fn answered(&mut self, path: &str, index: usize, answer: Option<Vec<Breakpoint>>) -> (info:
        BreakpointInfo)
        requires
            old(self).wf(),
            old(self).of(path@) matches Some(bps) && index < match answer {
                Some(left) => left@,
                None => bps,
            }.len(),
        ensures
            final(self).wf(),
            ({
                let now = match answer {
                    Some(left) => left@,
                    None => old(self).of(path@)->0,
                };
                &&& final(self).of(path@) == Some(now)
                &&& is_bp_info(info, path@, now[index as int])
            }),
            forall|other: Seq<char>|
                other != path@ ==> #[trigger] final(self).of(other) == old(self).of(other),
    {
        if let Some(bps) = answer {
            self.synced(path, bps);
        }
        self.info(path, index).unwrap()
    }

    /// Sets a breakpoint where no debugger is active, and tells what an agent gets to
    /// know of it. Where one is, `set` comes first, and `answered` once it has answered.
    pub fn set_breakpoint(&mut self, path: &str, line: usize, condition: Option<String>) -> (info:
        BreakpointInfo)
        requires
            old(self).wf(),
        ensures
            final(self).wf(),
            is_bp_info(info, path@, fresh(line, condition)),
            final(self).of(path@) == Some(
                match old(self).of(path@) {
                    Some(bps) => bps,
                    None => Seq::empty(),
                }.push(fresh(line, condition)),
            ),
            forall|other: Seq<char>|
                other != path@ ==> #[trigger] final(self).of(other) == old(self).of(other),
    {
        let index = self.set(path, line, condition);
        self.info(path, index).unwrap()
    }

    /// The breakpoints of all files as an agent gets them, file after file.
    pub fn list_all(&self) -> (infos: Vec<BreakpointInfo>)
        ensures
            infos@.len() == breakpoints_before(self.files(), self.files().len() as int),
            forall|f: int, i: int|
                0 <= f < self.files().len() && 0 <= i < self.files()[f].breakpoints@.len()
                    ==> is_bp_info(
                    infos@[breakpoints_before(self.files(), f) + i],
                    self.files()[f].path@,
                    #[trigger] self.files()[f].breakpoints@[i],
                ),
    {
        let mut infos: Vec<BreakpointInfo> = Vec::new();
        let mut k: usize = 0;
        while k < self.files.len()
            invariant
                k <= self.files.len(),
                infos@.len() == breakpoints_before(self.files@, k as int),
                forall|f: int, i: int|
                    0 <= f < k && 0 <= i < self.files@[f].breakpoints@.len() ==> is_bp_info(
                        infos@[breakpoints_before(self.files@, f) + i],
                        self.files@[f].path@,
                        #[trigger] self.files@[f].breakpoints@[i],
                    ),
            decreases self.files.len() - k,
        {
            let file = &self.files[k];
            let ghost before = infos@;
            let mut j: usize = 0;
            while j < file.breakpoints.len()
                invariant
                    k < self.files.len(),
                    *file == self.files@[k as int],
                    j <= file.breakpoints.len(),
                    infos@.len() == before.len() + j,
                    forall|i: int| 0 <= i < before.len() ==> infos@[i] == before[i],
                    forall|i: int|
                        0 <= i < j ==> is_bp_info(
                            infos@[before.len() + i],
                            file.path@,
                            #[trigger] file.breakpoints@[i],
                        ),
                decreases file.breakpoints.len() - j,
            {
                infos.push(bp_to_info(file.path.as_str(), &file.breakpoints[j]));
                j += 1;
            }
            proof {
                assert forall|f: int, i: int|
                    0 <= f < k + 1 && 0 <= i
                        < self.files@[f].breakpoints@.len() implies is_bp_info(
                    infos@[breakpoints_before(self.files@, f) + i],
                    self.files@[f].path@,
                    #[trigger] self.files@[f].breakpoints@[i],
                ) by {
                    if f < k {
                        lemma_breakpoints_before_monotone(self.files@, f + 1, k as int);
                        assert(infos@[breakpoints_before(self.files@, f) + i]
                            == before[breakpoints_before(self.files@, f) + i]);
                    }
                }
            }
            k += 1;
        }
        infos
    }

    /// The paths of the files that have had breakpoints.
    pub fn paths(&self) -> (paths: Vec<String>)
        ensures
            paths@ == Seq::new(self.files().len(), |i: int| self.files()[i].path),
    {
        let mut paths: Vec<String> = Vec::new();
        let mut i: usize = 0;
        while i < self.files.len()
            invariant
                i <= self.files.len(),
                paths@.len() == i,
                forall|k: int| 0 <= k < i ==> paths@[k] == self.files@[k].path,
            decreases self.files.len() - i,
        {
            paths.push(self.files[i].path.clone());
            i += 1;
        }
        assert(paths@ =~= Seq::new(self.files().len(), |i: int| self.files()[i].path));
        paths
    }
}

/// How many breakpoints the first `n` files have.
pub open spec fn breakpoints_before(files: Seq<FileBreakpoints>, n: int) -> nat
    decreases n,
{
    if n <= 0 {
        0
    } else {
        breakpoints_before(files, n - 1) + files[n - 1].breakpoints@.len()
    }
}

proof fn lemma_breakpoints_before_monotone(files: Seq<FileBreakpoints>, i: int, n: int)
    requires
        0 <= i <= n <= files.len(),
    ensures
        breakpoints_before(files, i) <= breakpoints_before(files, n),
    decreases n,
{
    if i < n {
        lemma_breakpoints_before_monotone(files, i, n - 1);
    }
}

proof fn lemma_same_paths(
    a: Seq<FileBreakpoints>,
    b: Seq<FileBreakpoints>,
    path: Seq<char>,
    i: int,
)
    requires
        a.len() == b.len(),
        0 <= i,
        forall|k: int| 0 <= k < a.len() ==> (#[trigger] b[k]).path@ == a[k].path@,
    ensures
        file_at(a, path, i) == file_at(b, path, i),
    decreases a.len() - i,
{
    if i < a.len() {
        assert(b[i].path@ == a[i].path@);
        lemma_same_paths(a, b, path, i + 1);
    }
}

proof fn lemma_file_at(files: Seq<FileBreakpoints>, path: Seq<char>, i: int)
    requires
        0 <= i,
    ensures
        file_at(files, path, i) matches Some(k) ==> i <= k < files.len() && files[k].path@ == path,
    decreases files.len() - i,
{
    if i < files.len() && files[i].path@ != path {
        lemma_file_at(files, path, i + 1);
    }
}

proof fn lemma_added_file(
    a: Seq<FileBreakpoints>,
    b: Seq<FileBreakpoints>,
    path: Seq<char>,
    i: int,
)
    requires
        0 <= i <= a.len(),
        b.len() == a.len() + 1,
        forall|k: int| 0 <= k < a.len() ==> a[k] == b[k],
    ensures
        file_at(a, path, i) is Some ==> file_at(b, path, i) == file_at(a, path, i),
        file_at(a, path, i) is None && b.last().path@ == path ==> file_at(b, path, i) == Some(
            b.len() - 1,
        ),
        file_at(a, path, i) is None && b.last().path@ != path ==> file_at(b, path, i) is None,
    decreases a.len() - i,
{
    if i < a.len() {
        assert(a[i] == b[i]);
        lemma_added_file(a, b, path, i + 1);
    } else {
        assert(file_at(b, path, i + 1) is None);
    }
}

/// Removing a breakpoint undoes setting it, where the line had none before.
pub proof fn law_remove_undoes_set(bps: Seq<Breakpoint>, line: usize, condition: Option<String>)
    requires
        forall|i: int| 0 <= i < bps.len() ==> (#[trigger] bps[i]).line != line,
    ensures
        ({
            let after = bps.push(fresh(line, condition));
            breakpoint_at(after, line, 0) matches Some(i) && after.remove(i) == bps
        }),
{
    let after = bps.push(fresh(line, condition));
    lemma_breakpoint_last(bps, after, line, 0);
    assert(after.remove(bps.len() as int) =~= bps);
}

proof fn lemma_breakpoint_last(
    bps: Seq<Breakpoint>,
    after: Seq<Breakpoint>,
    line: usize,
    i: int,
)
    requires
        0 <= i <= bps.len(),
        after.len() == bps.len() + 1,
        forall|k: int| 0 <= k < bps.len() ==> after[k] == bps[k],
        forall|k: int| 0 <= k < bps.len() ==> (#[trigger] bps[k]).line != line,
        after.last().line == line,
    ensures
        breakpoint_at(after, line, i) == Some(bps.len() as int),
    decreases bps.len() - i,
{
    if i < bps.len() {
        assert(after[i] == bps[i]);
        lemma_breakpoint_last(bps, after, line, i + 1);
    }
}

/// What the user is asked before a breakpoint is set.
pub open spec fn breakpoint_question(
    path: Seq<char>,
    line: usize,
    condition: Option<Seq<char>>,
) -> Seq<char> {
    "set_breakpoint '"@ + path + ":"@ + decimal(line as nat) + "'"@ + match condition {
        Some(condition) => " [cond: "@ + condition + "]"@,
        None => Seq::empty(),
    }
}

/// The dialog that asks for a breakpoint; none where it is set without asking.
pub fn breakpoint_request(
    path: &str,
    line: usize,
    condition: Option<&str>,
    auto_approve: bool,
) -> (dialog: Option<ApprovalDialog>)
    ensures
        dialog is None <==> auto_approve,
        dialog matches Some(dialog) ==> dialog.message@ == breakpoint_question(
            path@,
            line,
            match condition {
                Some(condition) => Some(condition@),
                None => None,
            },
        ) && dialog.id@ == "mcp-set-breakpoint"@,
{
    if auto_approve {
        return None;
    }
    let mut message = "set_breakpoint '".to_string();
    message.append(path);
    message.append(":");
    message.append(decimal_of(line as u64).as_str());
    message.append("'");
    if let Some(condition) = condition {
        let mut shown = " [cond: ".to_string();
        shown.append(condition);
        shown.append("]");
        message.append(shown.as_str());
    } else {
        assert(message@ + Seq::empty() =~= message@);
    }
    Some(ApprovalDialog { message, id: "mcp-set-breakpoint" })
}

// ── The state of the debugger ────────────────────────────────────────────────

#[derive(Debug)]
pub struct StackFrame {
    pub id: usize,
    pub name: String,
    pub path: Option<String>,
    /// Counted from one.
    pub line: usize,
    pub column: usize,
}

#[derive(Debug)]
pub struct ThreadFrames {
    pub thread_id: i64,
    pub frames: Vec<StackFrame>,
}

/// A debugger that is running.
#[derive(Debug)]
pub struct Debugger {
    /// The thread that is stopped, if any is.
    pub thread_id: Option<i64>,
    pub active_frame: Option<usize>,
    pub stacks: Vec<ThreadFrames>,
}

#[derive(Clone, Copy, Debug, PartialEq, Eq)]
pub struct DapStatus {
    pub active: bool,
    pub paused: bool,
    pub thread_id: Option<usize>,
    pub active_frame: Option<usize>,
}

pub fn dap_status(debugger: Option<&Debugger>) -> (status: DapStatus)
    ensures
        match debugger {
            Some(d) => {
                &&& status.active
                &&& status.paused == (d.thread_id is Some)
                &&& status.thread_id == match d.thread_id {
                    Some(t) => Some(t as usize),
                    None => None,
                }
                &&& status.active_frame == d.active_frame
            },
            None => {
                &&& !status.active
                &&& !status.paused
                &&& status.thread_id is None
                &&& status.active_frame is None
            },
        },
{
    match debugger {
        Some(d) => DapStatus {
            active: true,
            paused: d.thread_id.is_some(),
            thread_id: match d.thread_id {
                Some(t) => Some(t as usize),
                None => None,
            },
            active_frame: d.active_frame,
        },
        None => DapStatus {
            active: false,
            paused: false,
            thread_id: None,
            active_frame: None,
        },
    }
}

/// Why the debugger cannot do what is asked.
#[derive(Clone, Copy, Debug, PartialEq, Eq, Structural)]
pub enum DebugError {
    NoDebugger,
    NotPaused,
    NoThread,
    NoFrames,
}

impl DebugError {
    pub fn message(self) -> (text: &'static str)
        ensures
            text@ == match self {
                DebugError::NoDebugger => "No active debugger"@,
                DebugError::NotPaused => "Debugger not paused"@,
                DebugError::NoThread => "No active thread"@,
                DebugError::NoFrames => "No stack frames for thread"@,
            },
    {
        match self {
            DebugError::NoDebugger => "No active debugger",
            DebugError::NotPaused => "Debugger not paused",
            DebugError::NoThread => "No active thread",
            DebugError::NoFrames => "No stack frames for thread",
        }
    }
}

/// The thread to continue, pause or step: the one that is stopped.
pub fn thread_to_control(debugger: Option<&Debugger>) -> (thread: Result<i64, DebugError>)
    ensures
        thread == match debugger {
            None => Err::<i64, DebugError>(DebugError::NoDebugger),
            Some(d) => match d.thread_id {
                None => Err::<i64, DebugError>(DebugError::NotPaused),
                Some(t) => Ok::<i64, DebugError>(t),
            },
        },
{
    match debugger {
        None => Err(DebugError::NoDebugger),
        Some(d) => match d.thread_id {
            None => Err(DebugError::NotPaused),
            Some(t) => Ok(t),
        },
    }
}

/// What comes of a question that only a running debugger can answer.
pub fn debugger_reply<T>(is_running: bool, answer: Result<T, String>) -> (reply: Result<T, String>)
    ensures
        if is_running {
            reply == answer
        } else {
            reply matches Err(text) && text@ == "No active debugger"@
        },
{
    if is_running {
        answer
    } else {
        Err(DebugError::NoDebugger.message().to_string())
    }
}

/// A frame as an agent gets it. The line and the column are counted from zero.
#[derive(Debug)]
pub struct StackFrameInfo {
    pub id: usize,
    pub name: String,
    pub path: Option<String>,
    pub line: usize,
    pub col: usize,
    pub is_active: bool,
}

pub open spec fn is_frame_info(info: StackFrameInfo, f: StackFrame, is_active: bool) -> bool {
    &&& info.id == f.id
    &&& info.name == f.name
    &&& info.path == f.path
    &&& info.line == if f.line == 0 {
        0
    } else {
        f.line - 1
    }
    &&& info.col == if f.column == 0 {
        0
    } else {
        f.column - 1
    }
    &&& info.is_active == is_active
}

/// The stack from `i` on of a thread.
pub open spec fn stack_of(stacks: Seq<ThreadFrames>, thread: i64, i: int) -> Option<int>
    decreases stacks.len() - i,
{
    if i >= stacks.len() {
        None
    } else if stacks[i].thread_id == thread {
        Some(i)
    } else {
        stack_of(stacks, thread, i + 1)
    }
}

/// The thread whose stack is asked for: the one named, else the one that is
/// stopped.
pub open spec fn chosen_thread(d: Debugger, thread: Option<i64>) -> Option<i64> {
    match thread {
        Some(t) => Some(t),
        None => d.thread_id,
    }
}

/// The active frame is the first one where none is set.
pub open spec fn active_index(d: Debugger) -> usize {
    match d.active_frame {
        Some(i) => i,
        None => 0,
    }
}

/// The stack of a thread.
pub fn stack_trace(debugger: Option<&Debugger>, thread: Option<i64>) -> (result: Result<
    Vec<StackFrameInfo>,
    DebugError,
>)
    ensures
        match debugger {
            None => result matches Err(e) && e == DebugError::NoDebugger,
            Some(d) => match chosen_thread(*d, thread) {
                None => result matches Err(e) && e == DebugError::NoThread,
                Some(t) => match stack_of(d.stacks@, t, 0) {
                    None => result matches Err(e) && e == DebugError::NoFrames,
                    Some(k) => result matches Ok(infos) && {
                        let frames = d.stacks@[k].frames@;
                        &&& infos@.len() == frames.len()
                        &&& forall|i: int|
                            0 <= i < frames.len() ==> is_frame_info(
                                #[trigger] infos@[i],
                                frames[i],
                                i == active_index(*d),
                            )
                    },
                },
            },
        },
{
    let d = match debugger {
        None => {
            return Err(DebugError::NoDebugger);
        },
        Some(d) => d,
    };
    let chosen = match thread {
        Some(t) => Some(t),
        None => d.thread_id,
    };
    let tid = match chosen {
        None => {
            return Err(DebugError::NoThread);
        },
        Some(t) => t,
    };
    let active: usize = match d.active_frame {
        Some(i) => i,
        None => 0,
    };
    let mut k: usize = 0;
    while k < d.stacks.len()
        invariant
            k <= d.stacks.len(),
            debugger == Some(d),
            chosen_thread(*d, thread) == Some(tid),
            active == active_index(*d),
            stack_of(d.stacks@, tid, k as int) == stack_of(d.stacks@, tid, 0),
        decreases d.stacks.len() - k,
    {
        if d.stacks[k].thread_id == tid {
            let frames = &d.stacks[k].frames;
            let mut infos: Vec<StackFrameInfo> = Vec::new();
            let mut i: usize = 0;
            while i < frames.len()
                invariant
                    i <= frames.len(),
                    infos@.len() == i,
                    forall|j: int|
                        0 <= j < i ==> is_frame_info(
                            #[trigger] infos@[j],
                            frames@[j],
                            j == active,
                        ),
                decreases frames.len() - i,
            {
                let f = &frames[i];
                infos.push(
                    StackFrameInfo {
                        id: f.id,
                        name: f.name.clone(),
                        path: copy_text(&f.path),
                        line: f.line.saturating_sub(1),
                        col: f.column.saturating_sub(1),
                        is_active: i == active,
                    },
                );
                i += 1;
            }
            return Ok(infos);
        }
        k += 1;
    }
    Err(DebugError::NoFrames)
}

// ── Starting a debugger ──────────────────────────────────────────────────────

/// A parameter of a template: its name, and more where it is known.
#[derive(Debug)]
pub enum DebugParameter {
    Named(String),
    Advanced { name: Option<String>, completion: Option<String>, default: Option<String> },
}

/// A way to start a debugger.
#[derive(Debug)]
pub struct DebugTemplate {
    pub name: String,
    pub request: String,
    pub parameters: Vec<DebugParameter>,
    pub args: Vec<JsonEntry>,
}

/// A parameter as an agent gets it.
#[derive(Debug)]
pub struct DapParamInfo {
    pub name: String,
    pub completion: Option<String>,
    pub default: Option<String>,
}

/// A parameter without a name has the empty one.
pub open spec fn is_param_info(info: DapParamInfo, p: DebugParameter) -> bool {
    match p {
        DebugParameter::Named(name) => info.name == name && info.completion is None
            && info.default is None,
        DebugParameter::Advanced { name, completion, default } => {
            &&& info.name@ == match name {
                Some(name) => name@,
                None => Seq::empty(),
            }
            &&& info.completion == completion
            &&& info.default == default
        },
    }
}

/// A template as an agent gets it.
#[derive(Debug)]
pub struct DapTemplateInfo {
    pub name: String,
    pub request: String,
    pub params: Vec<DapParamInfo>,
}

pub open spec fn is_template_info(info: DapTemplateInfo, t: DebugTemplate) -> bool {
    &&& info.name == t.name
    &&& info.request == t.request
    &&& info.params@.len() == t.parameters@.len()
    &&& forall|i: int|
        0 <= i < t.parameters@.len() ==> is_param_info(
            #[trigger] info.params@[i],
            t.parameters@[i],
        )
}

fn template_info(t: &DebugTemplate) -> (info: DapTemplateInfo)
    ensures
        is_template_info(info, *t),
{
    let mut params: Vec<DapParamInfo> = Vec::new();
    let mut i: usize = 0;
    while i < t.parameters.len()
        invariant
            i <= t.parameters.len(),
            params@.len() == i,
            forall|k: int|
                0 <= k < i ==> is_param_info(#[trigger] params@[k], t.parameters@[k]),
        decreases t.parameters.len() - i,
    {
        let info = match &t.parameters[i] {
            DebugParameter::Named(name) => DapParamInfo {
                name: name.clone(),
                completion: None,
                default: None,
            },
            DebugParameter::Advanced { name, completion, default } => {
                let shown = match name {
                    Some(name) => name.clone(),
                    None => {
                        let none = String::new();
                        assert(none@ =~= Seq::empty());
                        none
                    },
                };
                DapParamInfo {
                    name: shown,
                    completion: copy_text(completion),
                    default: copy_text(default),
                }
            },
        };
        params.push(info);
        i += 1;
    }
    DapTemplateInfo { name: t.name.clone(), request: t.request.clone(), params }
}

/// Why a debugger cannot be started.
#[derive(Debug)]
pub enum LaunchError {
    AlreadyRunning,
    NotConfigured,
    NoTemplate,
    /// A template asks for something else than to launch or to attach.
    UnknownRequest(String),
}

impl LaunchError {
    pub fn message(&self) -> (text: String)
        ensures
            text@ == match *self {
                LaunchError::AlreadyRunning => "debugger is already running"@,
                LaunchError::NotConfigured => "no debug adapter configured for this language"@,
                LaunchError::NoTemplate => "no matching debug template"@,
                LaunchError::UnknownRequest(r) => "unsupported DAP request type: "@ + r@,
            },
    {
        match self {
            LaunchError::AlreadyRunning => "debugger is already running".to_string(),
            LaunchError::NotConfigured => {
                "no debug adapter configured for this language".to_string()
            },
            LaunchError::NoTemplate => "no matching debug template".to_string(),
            LaunchError::UnknownRequest(r) => {
                let mut text = "unsupported DAP request type: ".to_string();
                text.append(r.as_str());
                text
            },
        }
    }
}

/// The templates of the language in use.
pub fn list_templates(templates: Option<&Vec<DebugTemplate>>) -> (result: Result<
    Vec<DapTemplateInfo>,
    LaunchError,
>)
    ensures
        match templates {
            None => result matches Err(e) && e is NotConfigured,
            Some(all) => result matches Ok(infos) && infos@.len() == all@.len() && forall|i: int|
                0 <= i < all@.len() ==> is_template_info(#[trigger] infos@[i], all@[i]),
        },
{
    match templates {
        None => Err(LaunchError::NotConfigured),
        Some(all) => {
            let mut infos: Vec<DapTemplateInfo> = Vec::new();
            let mut i: usize = 0;
            while i < all.len()
                invariant
                    i <= all.len(),
                    infos@.len() == i,
                    forall|k: int|
                        0 <= k < i ==> is_template_info(#[trigger] infos@[k], all@[k]),
                decreases all.len() - i,
            {
                infos.push(template_info(&all[i]));
                i += 1;
            }
            Ok(infos)
        },
    }
}

/// The template from `i` on with a name.
pub open spec fn template_named(all: Seq<DebugTemplate>, name: Seq<char>, i: int) -> Option<int>
    decreases all.len() - i,
{
    if i >= all.len() {
        None
    } else if all[i].name@ == name {
        Some(i)
    } else {
        template_named(all, name, i + 1)
    }
}

/// The template that is asked for: the one with the name, or the first one where
/// no name is given.
pub open spec fn chosen_template(all: Seq<DebugTemplate>, name: Option<Seq<char>>) -> Option<int> {
    match name {
        Some(name) => template_named(all, name, 0),
        None => if all.len() > 0 {
            Some(0)
        } else {
            None
        },
    }
}

/// The first reason not to start a debugger.
pub fn check_launch(is_running: bool, is_configured: bool) -> (result: Result<(), LaunchError>)
    ensures
        if is_running {
            result matches Err(e) && e is AlreadyRunning
        } else if !is_configured {
            result matches Err(e) && e is NotConfigured
        } else {
            result is Ok
        },
{
    if is_running {
        Err(LaunchError::AlreadyRunning)
    } else if !is_configured {
        Err(LaunchError::NotConfigured)
    } else {
        Ok(())
    }
}

/// The template to start a debugger with.
pub fn choose_template<'a>(all: &'a Vec<DebugTemplate>, name: Option<&str>) -> (result: Result<
    &'a DebugTemplate,
    LaunchError,
>)
    ensures
        match chosen_template(
            all@,
            match name {
                Some(name) => Some(name@),
                None => None,
            },
        ) {
            Some(i) => result matches Ok(t) && *t == all@[i],
            None => result matches Err(e) && e is NoTemplate,
        },
{
    match name {
        None => {
            if all.len() > 0 {
                Ok(&all[0])
            } else {
                Err(LaunchError::NoTemplate)
            }
        },
        Some(wanted) => {
            let mut i: usize = 0;
            while i < all.len()
                invariant
                    i <= all.len(),
                    name == Some(wanted),
                    template_named(all@, wanted@, i as int) == template_named(all@, wanted@, 0),
                decreases all.len() - i,
            {
                if same(all[i].name.as_str(), wanted) {
                    return Ok(&all[i]);
                }
                i += 1;
            }
            Err(LaunchError::NoTemplate)
        },
    }
}

/// The value of parameter `i` is the path of a file or of a directory, to be made
/// absolute.
pub fn is_path_parameter(t: &DebugTemplate, i: usize) -> (b: bool)
    ensures
        b == (i < t.parameters@.len() && match t.parameters@[i as int] {
            DebugParameter::Advanced { name, completion: Some(kind), default } => kind@
                == "filename"@ || kind@ == "directory"@,
            _ => false,
        }),
{
    if i >= t.parameters.len() {
        return false;
    }
    match &t.parameters[i] {
        DebugParameter::Advanced { name, completion, default } => match completion {
            Some(kind) => same(kind.as_str(), "filename") || same(kind.as_str(), "directory"),
            None => false,
        },
        DebugParameter::Named(_) => false,
    }
}

/// What stands for parameter `i` in a template.
pub open spec fn placeholder(i: nat) -> Seq<char> {
    "{"@ + decimal(i) + "}"@
}

/// A text with the first `n` parameters put in, one after the other.
pub open spec fn filled(text: Seq<char>, params: Seq<Seq<char>>, n: int) -> Seq<char>
    decreases n,
{
    if n <= 0 {
        text
    } else {
        replaced_all(
            filled(text, params, n - 1),
            placeholder((n - 1) as nat),
            params[n - 1],
            0,
        )
    }
}

pub open spec fn is_digit(c: char) -> bool {
    '0' <= c && c <= '9'
}

/// The number that digits stand for.
pub open spec fn digits_value(s: Seq<char>) -> nat
    decreases s.len(),
{
    if s.len() == 0 {
        0
    } else {
        digits_value(s.drop_last()) * 10 + (s.last() as u32 - '0' as u32) as nat
    }
}

/// The digits of a number; a plus sign may come before them.
pub open spec fn unsigned_digits(s: Seq<char>) -> Seq<char> {
    if s.len() > 1 && s[0] == '+' {
        s.skip(1)
    } else {
        s
    }
}

/// The number that a text is, where it is one that a `usize` can hold.
pub open spec fn as_number(s: Seq<char>) -> Option<nat> {
    let digits = unsigned_digits(s);
    if digits.len() > 0 && (forall|i: int| 0 <= i < digits.len() ==> is_digit(#[trigger] digits[i]))
        && digits_value(digits) <= usize::MAX {
        Some(digits_value(digits))
    } else {
        None
    }
}

fn parse_number(s: &str) -> (n: Option<usize>)
    ensures
        match n {
            Some(n) => as_number(s@) == Some(n as nat),
            None => as_number(s@) is None,
        },
{
    let v = chars_of(s);
    let start: usize = if v.len() > 1 && v[0] == '+' {
        1
    } else {
        0
    };
    let ghost digits = unsigned_digits(s@);
    assert(digits =~= v@.skip(start as int));
    if v.len() == 0 {
        return None;
    }
    let mut n: usize = 0;
    let mut i: usize = start;
    assert(digits.take(0) =~= Seq::empty());
    while i < v.len()
        invariant
            start <= i <= v.len(),
            start <= 1,
            v@ == s@,
            digits == unsigned_digits(s@),
            digits =~= v@.skip(start as int),
            n == digits_value(digits.take(i - start)),
            forall|k: int| 0 <= k < i - start ==> is_digit(#[trigger] digits[k]),
        decreases v.len() - i,
    {
        let c = v[i];
        assert(digits[i - start] == c);
        if c < '0' || c > '9' {
            assert(!is_digit(digits[i - start]));
            return None;
        }
        let d: usize = (c as u32 - '0' as u32) as usize;
        let ghost next = digits.take(i - start + 1);
        proof {
            assert(next.drop_last() =~= digits.take(i - start));
            assert(digits_value(next) == n * 10 + d);
            lemma_digits_value_monotone(digits, i - start + 1);
        }
        if n > (usize::MAX - d) / 10 {
            assert(n * 10 + d > usize::MAX);
            return None;
        }
        n = n * 10 + d;
        i += 1;
    }
    assert(digits.take(digits.len() as int) =~= digits);
    Some(n)
}

proof fn lemma_digits_value_monotone(s: Seq<char>, k: int)
    requires
        0 <= k <= s.len(),
    ensures
        digits_value(s.take(k)) <= digits_value(s),
    decreases s.len() - k,
{
    if k == s.len() {
        assert(s.take(k) =~= s);
    } else {
        lemma_digits_value_monotone(s, k + 1);
        assert(s.take(k + 1).drop_last() =~= s.take(k));
    }
}

/// `out` is `value` with the parameters put into its texts; a text that is then a
/// number becomes one.
pub open spec fn is_filled(out: Json, value: Json, params: Seq<Seq<char>>) -> bool
    decreases value,
{
    match value {
        Json::Text(text) => {
            let full = filled(text@, params, params.len() as int);
            match as_number(full) {
                Some(n) => out matches Json::Number(shown) && shown@ == decimal(n),
                None => out matches Json::Text(shown) && shown@ == full,
            }
        },
        Json::Array(all) => out matches Json::Array(outs) && outs@.len() == all@.len()
            && forall|i: int|
            0 <= i < all@.len() ==> is_filled(#[trigger] outs@[i], all@[i], params),
        Json::Object(all) => out matches Json::Object(outs) && outs@.len() == all@.len()
            && forall|i: int|
            0 <= i < all@.len() ==> (#[trigger] outs@[i]).key == all@[i].key && is_filled(
                outs@[i].value,
                all@[i].value,
                params,
            ),
        _ => out == value,
    }
}

fn fill_text(text: &str, params: &Vec<String>) -> (out: String)
    ensures
        out@ == filled(text@, views(params@), params@.len() as int),
{
    let ghost all = views(params@);
    let mut out = text.to_string();
    let mut i: usize = 0;
    while i < params.len()
        invariant
            i <= params.len(),
            all == views(params@),
            out@ == filled(text@, all, i as int),
        decreases params.len() - i,
    {
        let mut hole = "{".to_string();
        hole.append(decimal_of(i as u64).as_str());
        hole.append("}");
        assert(hole@ == placeholder(i as nat));
        out = replace_all(out.as_str(), hole.as_str(), params[i].as_str());
        i += 1;
    }
    out
}

pub fn map_dap_value(value: &Json, params: &Vec<String>) -> (out: Json)
    ensures
        is_filled(out, *value, views(params@)),
    decreases value,
{
    match value {
        Json::Text(text) => {
            let full = fill_text(text.as_str(), params);
            assert(views(params@).len() == params@.len());
            match parse_number(full.as_str()) {
                Some(n) => Json::Number(decimal_of(n as u64)),
                None => Json::Text(full),
            }
        },
        Json::Array(all) => Json::Array(map_items(all, params)),
        Json::Object(all) => Json::Object(map_entries(all, params)),
        Json::Null => Json::Null,
        Json::Bool(b) => Json::Bool(*b),
        Json::Number(n) => Json::Number(n.clone()),
    }
}

fn map_items(all: &Vec<Json>, params: &Vec<String>) -> (outs: Vec<Json>)
    ensures
        outs@.len() == all@.len(),
        forall|i: int|
            0 <= i < all@.len() ==> is_filled(#[trigger] outs@[i], all@[i], views(params@)),
    decreases all,
{
    let mut outs: Vec<Json> = Vec::new();
    let mut i: usize = 0;
    while i < all.len()
        invariant
            i <= all.len(),
            outs@.len() == i,
            forall|k: int|
                0 <= k < i ==> is_filled(#[trigger] outs@[k], all@[k], views(params@)),
        decreases all.len() - i,
    {
        outs.push(map_dap_value(&all[i], params));
        i += 1;
    }
    outs
}

fn map_entries(all: &Vec<JsonEntry>, params: &Vec<String>) -> (outs: Vec<JsonEntry>)
    ensures
        outs@.len() == all@.len(),
        forall|i: int|
            0 <= i < all@.len() ==> (#[trigger] outs@[i]).key == all@[i].key && is_filled(
                outs@[i].value,
                all@[i].value,
                views(params@),
            ),
    decreases all,
{
    let mut outs: Vec<JsonEntry> = Vec::new();
    let mut i: usize = 0;
    while i < all.len()
        invariant
            i <= all.len(),
            outs@.len() == i,
            forall|k: int|
                0 <= k < i ==> (#[trigger] outs@[k]).key == all@[k].key && is_filled(
                    outs@[k].value,
                    all@[k].value,
                    views(params@),
                ),
        decreases all.len() - i,
    {
        let entry = &all[i];
        outs.push(
            JsonEntry { key: entry.key.clone(), value: map_dap_value(&entry.value, params) },
        );
        i += 1;
    }
    outs
}

/// The arguments of a template, with the parameters put in where there are any.
pub fn launch_args(template: &DebugTemplate, params: &Vec<String>, cwd: &str) -> (args: Vec<
    JsonEntry,
>)
    ensures
        ({
            let n = template.args@.len();
            let own = entry_of(template.args@, "cwd"@, 0);
            &&& args@.len() == if own is Some {
                n
            } else {
                n + 1
            }
            &&& forall|i: int|
                0 <= i < n ==> (#[trigger] args@[i]).key == template.args@[i].key && (own != Some(
                    i,
                ) ==> if params@.len() == 0 {
                    same_json(args@[i].value, template.args@[i].value)
                } else {
                    is_filled(args@[i].value, template.args@[i].value, views(params@))
                })
            &&& {
                let k = match own {
                    Some(k) => k,
                    None => n as int,
                };
                &&& args@[k].key@ == "cwd"@
                &&& args@[k].value matches Json::Text(text) && text@ == cwd@
            }
        }),
{
    let mut args = if params.len() == 0 {
        copy_entries(&template.args)
    } else {
        map_entries(&template.args, params)
    };
    let value = Json::Text(cwd.to_string());
    match find_entry(&template.args, "cwd") {
        Some(k) => {
            proof {
                lemma_entry_of(template.args@, "cwd"@, 0);
            }
            let key = template.args[k].key.clone();
            args.set(k, JsonEntry { key, value });
        },
        None => {
            args.push(JsonEntry { key: "cwd".to_string(), value });
        },
    }
    args
}

proof fn lemma_entry_of(entries: Seq<JsonEntry>, key: Seq<char>, i: int)
    requires
        0 <= i,
    ensures
        entry_of(entries, key, i) matches Some(k) ==> i <= k < entries.len() && entries[k].key@
            == key,
    decreases entries.len() - i,
{
    if i < entries.len() && entries[i].key@ != key {
        lemma_entry_of(entries, key, i + 1);
    }
}

/// Two values that are written alike.
pub open spec fn same_json(a: Json, b: Json) -> bool
    decreases b,
{
    match b {
        Json::Array(all) => a matches Json::Array(outs) && outs@.len() == all@.len() && forall|i: int|
            0 <= i < all@.len() ==> same_json(#[trigger] outs@[i], all@[i]),
        Json::Object(all) => a matches Json::Object(outs) && outs@.len() == all@.len()
            && forall|i: int|
            0 <= i < all@.len() ==> (#[trigger] outs@[i]).key == all@[i].key && same_json(
                outs@[i].value,
                all@[i].value,
            ),
        _ => a == b,
    }
}

fn copy_items(all: &Vec<Json>) -> (outs: Vec<Json>)
    ensures
        outs@.len() == all@.len(),
        forall|i: int| 0 <= i < all@.len() ==> same_json(#[trigger] outs@[i], all@[i]),
    decreases all,
{
    let mut outs: Vec<Json> = Vec::new();
    let mut i: usize = 0;
    while i < all.len()
        invariant
            i <= all.len(),
            outs@.len() == i,
            forall|k: int| 0 <= k < i ==> same_json(#[trigger] outs@[k], all@[k]),
        decreases all.len() - i,
    {
        outs.push(copy_json(&all[i]));
        i += 1;
    }
    outs
}

fn copy_entries(all: &Vec<JsonEntry>) -> (outs: Vec<JsonEntry>)
    ensures
        outs@.len() == all@.len(),
        forall|i: int|
            0 <= i < all@.len() ==> (#[trigger] outs@[i]).key == all@[i].key && same_json(
                outs@[i].value,
                all@[i].value,
            ),
    decreases all,
{
    let mut outs: Vec<JsonEntry> = Vec::new();
    let mut i: usize = 0;
    while i < all.len()
        invariant
            i <= all.len(),
            outs@.len() == i,
            forall|k: int|
                0 <= k < i ==> (#[trigger] outs@[k]).key == all@[k].key && same_json(
                    outs@[k].value,
                    all@[k].value,
                ),
        decreases all.len() - i,
    {
        let entry = &all[i];
        outs.push(JsonEntry { key: entry.key.clone(), value: copy_json(&entry.value) });
        i += 1;
    }
    outs
}

fn copy_json(value: &Json) -> (out: Json)
    ensures
        same_json(out, *value),
    decreases value,
{
    match value {
        Json::Null => Json::Null,
        Json::Bool(b) => Json::Bool(*b),
        Json::Number(n) => Json::Number(n.clone()),
        Json::Text(text) => Json::Text(text.clone()),
        Json::Array(all) => Json::Array(copy_items(all)),
        Json::Object(all) => Json::Object(copy_entries(all)),
    }
}

/// How to start a debugger.
#[derive(Clone, Copy, Debug, PartialEq, Eq, Structural)]
pub enum LaunchRequest {
    Launch,
    Attach,
}

/// What a template asks for.
pub fn launch_request(template: &DebugTemplate) -> (result: Result<LaunchRequest, LaunchError>)
    ensures
        if template.request@ == "launch"@ {
            result matches Ok(r) && r == LaunchRequest::Launch
        } else if template.request@ == "attach"@ {
            result matches Ok(r) && r == LaunchRequest::Attach
        } else {
            result matches Err(LaunchError::UnknownRequest(r)) && r == template.request
        },
{
    if same(template.request.as_str(), "launch") {
        Ok(LaunchRequest::Launch)
    } else if same(template.request.as_str(), "attach") {
        Ok(LaunchRequest::Attach)
    } else {
        Err(LaunchError::UnknownRequest(template.request.clone()))
    }
}

/// Whether a debugger is asked to end: only one that supports it is. An error
/// where there is none.
pub fn terminate_request(is_running: bool, supports_terminate: Option<bool>) -> (result: Result<
    bool,
    &'static str,
>)
    ensures
        match result {
            Ok(ask) => is_running && ask == (supports_terminate == Some(true)),
            Err(e) => !is_running && e@ == "no active debugger"@,
        },
{
    if !is_running {
        return Err("no active debugger");
    }
    match supports_terminate {
        Some(b) => Ok(b),
        None => Ok(false),
    }
}

/// The breakpoints of a path are those of the first file with it.
pub proof fn law_file_is_the_first_with_its_path(files: Seq<FileBreakpoints>, path: Seq<char>, k: int)
    requires
        0 <= k,
    ensures
        match file_at(files, path, k) {
            Some(i) => k <= i < files.len() && files[i].path@ == path && forall|j: int|
                k <= j < i ==> !((#[trigger] files[j]).path@ == path),
            None => forall|j: int| k <= j < files.len() ==> !((#[trigger] files[j]).path@ == path),
        },
    decreases files.len() - k,
{
    if k < files.len() && !(files[k].path@ == path) {
        law_file_is_the_first_with_its_path(files, path, k + 1);
    }
}

/// The breakpoint of a line is the first one on it.
pub proof fn law_breakpoint_is_the_first_of_its_line(bps: Seq<Breakpoint>, line: usize, k: int)
    requires
        0 <= k,
    ensures
        match breakpoint_at(bps, line, k) {
            Some(i) => k <= i < bps.len() && bps[i].line == line && forall|j: int|
                k <= j < i ==> !((#[trigger] bps[j]).line == line),
            None => forall|j: int| k <= j < bps.len() ==> !((#[trigger] bps[j]).line == line),
        },
    decreases bps.len() - k,
{
    if k < bps.len() && !(bps[k].line == line) {
        law_breakpoint_is_the_first_of_its_line(bps, line, k + 1);
    }
}

/// The stack of a thread is the first one with its id.
pub proof fn law_stack_is_that_of_its_thread(stacks: Seq<ThreadFrames>, thread: i64, k: int)
    requires
        0 <= k,
    ensures
        match stack_of(stacks, thread, k) {
            Some(i) => k <= i < stacks.len() && stacks[i].thread_id == thread && forall|j: int|
                k <= j < i ==> !((#[trigger] stacks[j]).thread_id == thread),
            None => forall|j: int| k <= j < stacks.len() ==> !((#[trigger] stacks[j]).thread_id == thread),
        },
    decreases stacks.len() - k,
{
    if k < stacks.len() && !(stacks[k].thread_id == thread) {
        law_stack_is_that_of_its_thread(stacks, thread, k + 1);
    }
}

/// The template of a name is the first one that has it.
pub proof fn law_template_is_the_first_with_its_name(all: Seq<DebugTemplate>, name: Seq<char>, k: int)
    requires
        0 <= k,
    ensures
        match template_named(all, name, k) {
            Some(i) => k <= i < all.len() && all[i].name@ == name && forall|j: int|
                k <= j < i ==> !((#[trigger] all[j]).name@ == name),
            None => forall|j: int| k <= j < all.len() ==> !((#[trigger] all[j]).name@ == name),
        },
    decreases all.len() - k,
{
    if k < all.len() && !(all[k].name@ == name) {
        law_template_is_the_first_with_its_name(all, name, k + 1);
    }
}

/// As many breakpoints come before those of a file as the files before it have.
pub proof fn law_breakpoints_of_every_file_are_counted(files: Seq<FileBreakpoints>, n: int)
    requires
        0 <= n <= files.len(),
    ensures
        breakpoints_before(files, n) == files.take(n).map_values(|x: FileBreakpoints| x.breakpoints@).flatten_alt().len(),
    decreases n,
{
    if n > 0 {
        law_breakpoints_of_every_file_are_counted(files, n - 1);
        let all = files.take(n).map_values(|x: FileBreakpoints| x.breakpoints@);
        assert(all.drop_last() =~= files.take(n - 1).map_values(|x: FileBreakpoints| x.breakpoints@));
    }
}

proof fn lemma_digits_value(s: Seq<char>)
    ensures
        digits_value(s) == number_of(s),
    decreases s.len(),
{
    if s.len() > 0 {
        lemma_digits_value(s.drop_last());
    }
}

/// A number that is written out is read back, with a plus sign before it too, where a
/// `usize` can hold it.
pub proof fn law_written_number_is_read_back(n: nat)
    ensures
        n <= usize::MAX ==> as_number(decimal(n)) == Some(n),
        n <= usize::MAX ==> as_number(seq!['+'] + decimal(n)) == Some(n),
        n > usize::MAX ==> as_number(decimal(n)) is None,
{
    let digits = decimal(n);
    law_digits_stand_for_their_number(n);
    lemma_digits_value(digits);
    lemma_decimal_is_digits(n);
    assert(digits[0] != '+');
    assert((seq!['+'] + digits).skip(1) =~= digits);
}

proof fn lemma_decimal_is_digits(n: nat)
    ensures
        decimal(n).len() > 0,
        forall|i: int| 0 <= i < decimal(n).len() ==> is_digit(#[trigger] decimal(n)[i]),
    decreases n,
{
    if n >= 10 {
        lemma_decimal_is_digits(n / 10);
    }
}

/// What is read as a number consists of digits, but for one plus sign before them, and is
/// the number that they stand for.
pub proof fn law_only_digits_are_a_number(s: Seq<char>)
    ensures
        as_number(s) is Some ==> s.len() > 0 && (forall|i: int|
            0 < i < s.len() ==> '0' <= #[trigger] s[i] <= '9') && (s[0] == '+' || '0' <= s[0]
            <= '9'),
        as_number(s) is Some && s[0] != '+' ==> number_of(s) == as_number(s)->0,
        as_number(s) is Some && s[0] == '+' ==> s.len() > 1 && number_of(s.skip(1)) == as_number(
            s,
        )->0,
{
    let digits = unsigned_digits(s);
    lemma_digits_value(digits);
    if as_number(s) is Some {
        if s.len() > 1 && s[0] == '+' {
            assert forall|i: int| 0 < i < s.len() implies '0' <= #[trigger] s[i] <= '9' by {
                assert(is_digit(digits[i - 1]));
            }
        } else {
            assert(is_digit(digits[0]));
        }
    }
}

/// Parameters are put in one after the other: the last one goes, in every place, where its
/// number stands between braces in the text with the others put in.
pub proof fn law_parameters_stand_for_their_numbers(
    text: Seq<char>,
    params: Seq<Seq<char>>,
    last: Seq<char>,
)
    ensures
        filled(text, Seq::empty(), 0) == text,
        filled(text, params.push(last), params.len() as int + 1) == replaced_all(
            filled(text, params, params.len() as int),
            "{"@ + decimal(params.len()) + "}"@,
            last,
            0,
        ),
{
    lemma_filled_prefix(text, params.push(last), params, params.len() as int);
}

proof fn lemma_filled_prefix(text: Seq<char>, a: Seq<Seq<char>>, b: Seq<Seq<char>>, n: int)
    requires
        n <= a.len(),
        n <= b.len(),
        forall|i: int| 0 <= i < n ==> a[i] == b[i],
    ensures
        filled(text, a, n) == filled(text, b, n),
    decreases n,
{
    if n > 0 {
        lemma_filled_prefix(text, a, b, n - 1);
    }
}

/// A text without an opening brace stays as it is, whatever the parameters.
pub proof fn law_text_without_braces_stays(text: Seq<char>, params: Seq<Seq<char>>, n: int)
    requires
        !text.contains('{'),
        0 <= n <= params.len(),
    ensures
        filled(text, params, n) == text,
    decreases n,
{
    if n > 0 {
        law_text_without_braces_stays(text, params, n - 1);
        let part = placeholder((n - 1) as nat);
        reveal_strlit("{");
        assert(part[0] == '{');
        assert forall|j: int| 0 <= j implies !(#[trigger] stands_at(text, part, j)) by {
            if stands_at(text, part, j) {
                assert(text.subrange(j, j + part.len())[0] == text[j]);
            }
        }
        law_nothing_is_replaced_without_a_place(text, part, params[n - 1]);
    }
}

/// A template is chosen by its name, and without a name the first one is.
pub proof fn law_first_template_is_the_default(all: Seq<DebugTemplate>)
    ensures
        all.len() > 0 ==> chosen_template(all, None) == Some(0int),
        all.len() == 0 ==> chosen_template(all, None) is None,
        forall|name: Seq<char>| #[trigger]
            chosen_template(all, Some(name)) matches Some(i) ==> 0 <= i < all.len() && all[i].name@
                == name,
{
    assert forall|name: Seq<char>| (#[trigger] chosen_template(all, Some(name))) is Some implies 0
        <= chosen_template(all, Some(name))->0 < all.len() && all[chosen_template(
        all,
        Some(name),
    )->0].name@ == name by {
        law_template_is_the_first_with_its_name(all, name, 0);
    }
}

/// A frame of the stack counts lines and columns from zero, where a debugger counts them
/// from one; one that it does not know stays zero.
pub proof fn law_frames_count_from_zero(info: StackFrameInfo, f: StackFrame, is_active: bool)
    requires
        is_frame_info(info, f, is_active),
    ensures
        f.line > 0 ==> info.line + 1 == f.line,
        f.line == 0 ==> info.line == 0,
        f.column > 0 ==> info.col + 1 == f.column,
        f.column == 0 ==> info.col == 0,
        info.name == f.name && info.path == f.path && info.id == f.id,
        info.is_active == is_active,
{
}

/// The stack that is told is that of the thread asked for, else of the one that is stopped;
/// the first frame is active where none was chosen.
pub proof fn law_thread_asked_for_goes_before_the_stopped_one(d: Debugger, thread: i64)
    ensures
        chosen_thread(d, Some(thread)) == Some(thread),
        chosen_thread(d, None) == d.thread_id,
        d.active_frame is None ==> active_index(d) == 0,
        d.active_frame is Some ==> active_index(d) == d.active_frame->0,
{
}

/// The texts of a template are filled in wherever they stand in it, and all else stays as it
/// is: the keys, the order and the length of its lists.
pub proof fn law_template_keeps_its_shape(out: Json, value: Json, params: Seq<Seq<char>>)
    requires
        is_filled(out, value, params),
    ensures
        value is Array ==> out is Array && out->Array_0@.len() == value->Array_0@.len(),
        value is Array ==> forall|i: int|
            0 <= i < value->Array_0@.len() ==> is_filled(
                #[trigger] out->Array_0@[i],
                value->Array_0@[i],
                params,
            ),
        value is Object ==> out is Object && out->Object_0@.len() == value->Object_0@.len(),
        value is Object ==> forall|i: int|
            0 <= i < value->Object_0@.len() ==> (#[trigger] out->Object_0@[i]).key
                == value->Object_0@[i].key && is_filled(
                out->Object_0@[i].value,
                value->Object_0@[i].value,
                params,
            ),
        value is Text ==> out is Text || out is Number,
        value is Text && !value->Text_0@.contains('{') && as_number(value->Text_0@) is None
            ==> out is Text && out->Text_0@ == value->Text_0@,
        value is Text && !value->Text_0@.contains('{') && as_number(value->Text_0@) is Some
            ==> out is Number && out->Number_0@ == decimal(as_number(value->Text_0@)->0),
        value is Number ==> out == value,
{
    if value is Text && !value->Text_0@.contains('{') {
        law_text_without_braces_stays(value->Text_0@, params, params.len() as int);
    }
}

/// The user is asked about a breakpoint by its file, its line and its condition.
pub proof fn law_question_names_the_breakpoint(path: Seq<char>, line: usize, condition: Seq<char>)
    ensures
        breakpoint_question(path, line, None) == "set_breakpoint '"@ + path + ":"@ + decimal(
            line as nat,
        ) + "'"@,
        breakpoint_question(path, line, Some(condition)) == "set_breakpoint '"@ + path + ":"@
            + decimal(line as nat) + "'"@ + (" [cond: "@ + condition + "]"@),
{
    assert(breakpoint_question(path, line, None) =~= "set_breakpoint '"@ + path + ":"@ + decimal(
        line as nat,
    ) + "'"@);
}

/// A breakpoint is told as the debugger knows it, with its file.
pub proof fn law_breakpoint_is_told_as_it_is(info: BreakpointInfo, path: Seq<char>, b: Breakpoint)
    requires
        is_bp_info(info, path, b),
    ensures
        info.path@ == path && info.line == b.line && info.column == b.column && info.condition
            == b.condition && info.verified == b.verified && info.id == b.id && info.message
            == b.message,
{
}

/// A template is told with all its parameters; one that has only a name has neither a
/// completion nor a default, and one without a name the empty one.
pub proof fn law_template_is_told_with_its_parameters(
    info: DapTemplateInfo,
    t: DebugTemplate,
    i: int,
)
    requires
        is_template_info(info, t),
    ensures
        info.name == t.name && info.request == t.request,
        info.params@.len() == t.parameters@.len(),
        0 <= i < t.parameters@.len() && (t.parameters@[i] is Named) ==> info.params@[i].name
            == t.parameters@[i]->Named_0 && info.params@[i].completion is None
            && info.params@[i].default is None,
        0 <= i < t.parameters@.len() && (t.parameters@[i] is Advanced) && t.parameters@[i]->name is Some
            ==> info.params@[i].name@ == t.parameters@[i]->name->0@,
        0 <= i < t.parameters@.len() && (t.parameters@[i] is Advanced) && t.parameters@[i]->name is None
            ==> info.params@[i].name@.len() == 0,
        0 <= i < t.parameters@.len() && (t.parameters@[i] is Advanced) ==> info.params@[i].default
            == t.parameters@[i]->default && info.params@[i].completion
            == t.parameters@[i]->completion,
{
    if 0 <= i < t.parameters@.len() {
        assert(is_param_info(info.params@[i], t.parameters@[i]));
    }
}

} // verus!
