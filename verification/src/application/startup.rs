//! What is opened when the editor starts.

use vstd::prelude::*;

use crate::text::{decimal, decimal_of};

verus! {

/// A file of the command line.
#[derive(Debug)]
pub struct FileArg {
    pub path: String,
    pub is_dir: bool,
}

/// How the screen is split for more than one file.
#[derive(Clone, Copy, Debug, PartialEq, Eq, Structural)]
pub enum Layout {
    Horizontal,
    Vertical,
}

/// How a document is shown that is opened.
#[derive(Clone, Copy, Debug, PartialEq, Eq, Structural)]
pub enum Action {
    Load,
    Replace,
    HorizontalSplit,
    VerticalSplit,
}

/// What the editor starts with.
#[derive(Clone, Copy, Debug, PartialEq, Eq, Structural)]
pub enum Opening {
    /// The tutor, whose path is then unset so that it is not saved by accident.
    Tutor,
    /// The files of the command line, from `first` on; the first argument is a
    /// directory to pick a file from where `picker` is set.
    Files { picker: bool, first: usize },
    /// An empty buffer; the first argument is a directory to pick a file from where
    /// `picker` is set.
    Empty { picker: bool },
    /// What comes from standard input, or an empty buffer where that fails.
    Stdin,
}

/// What the editor starts with.
pub open spec fn opening_of(load_tutor: bool, files: Seq<FileArg>, is_terminal: bool) -> Opening {
    if load_tutor {
        Opening::Tutor
    } else if files.len() > 0 {
        let picker = files[0].is_dir;
        if picker && files.len() == 1 {
            Opening::Empty { picker }
        } else {
            Opening::Files {
                picker,
                first: if picker {
                    1
                } else {
                    0
                },
            }
        }
    } else if is_terminal {
        Opening::Empty { picker: false }
    } else {
        Opening::Stdin
    }
}

pub fn opening(load_tutor: bool, files: &Vec<FileArg>, is_terminal: bool) -> (opening: Opening)
    ensures
        opening == opening_of(load_tutor, files@, is_terminal),
{
    if load_tutor {
        return Opening::Tutor;
    }
    if files.len() > 0 {
        // If the first file is a directory, skip it and open a picker
        let picker = files[0].is_dir;
        if picker && files.len() == 1 {
            return Opening::Empty { picker };
        }
        return Opening::Files {
            picker,
            first: if picker {
                1
            } else {
                0
            },
        };
    }
    if is_terminal {
        Opening::Empty { picker: false }
    } else {
        Opening::Stdin
    }
}

/// What came of opening a file.
#[derive(Clone, Copy, Debug, PartialEq, Eq, Structural)]
pub enum OpenOutcome {
    /// It is no regular file and is left out.
    Irregular,
    /// It was open already.
    AlreadyOpen,
    Opened,
}

/// The files of the command line, as they are opened one after the other.
#[derive(Debug)]
pub struct OpeningFiles {
    split: Option<Layout>,
    nr_of_files: usize,
}

/// What is done when all files have been opened.
#[derive(Debug)]
pub enum Opened {
    /// No file could be opened: an empty buffer takes their place.
    Empty,
    /// The status line says how many there are, and the view is centered.
    Status(String),
}

pub open spec fn directory_error(path: Seq<char>) -> Seq<char> {
    "expected a path to file, but found a directory: "@ + path
        + ". (to open a directory pass it as first argument)"@
}

/// What the status line says of `n` files.
pub open spec fn loaded(n: nat) -> Seq<char> {
    "Loaded "@ + decimal(n) + if n == 1 {
        " file."@
    } else {
        " files."@
    }
}

/// How a file is shown when `n` files have been opened before it: the first in a window
/// of its own, the others as the command line says.
pub open spec fn action_for(n: nat, layout: Option<Layout>) -> Action {
    if n == 0 {
        Action::VerticalSplit
    } else {
        match layout {
            Some(Layout::Vertical) => Action::VerticalSplit,
            Some(Layout::Horizontal) => Action::HorizontalSplit,
            None => Action::Load,
        }
    }
}

/// How many of the first `n` files were opened anew.
pub open spec fn opened_count(outcomes: Seq<OpenOutcome>, n: int) -> nat
    decreases n,
{
    if n <= 0 {
        0
    } else {
        opened_count(outcomes, n - 1) + if outcomes[n - 1] == OpenOutcome::Opened {
            1nat
        } else {
            0nat
        }
    }
}

impl OpeningFiles {
    /// How many files have been opened.
    pub closed spec fn count(self) -> nat {
        self.nr_of_files as nat
    }

    pub closed spec fn layout(self) -> Option<Layout> {
        self.split
    }

    pub fn new(split: Option<Layout>) -> (r: OpeningFiles)
        ensures
            r.count() == 0,
            r.layout() == split,
    {
        OpeningFiles { split, nr_of_files: 0 }
    }

    /// How the next file is shown. `shown_path` is the path as it is quoted. A
    /// directory is an error.
    pub fn next(&self, file: &FileArg, shown_path: &str) -> (result: Result<Action, String>)
        ensures
            match result {
                Ok(action) => !file.is_dir && action == action_for(self.count(), self.layout()),
                Err(text) => file.is_dir && text@ == directory_error(shown_path@),
            },
    {
        if file.is_dir {
            let mut text = "expected a path to file, but found a directory: ".to_string();
            text.append(shown_path);
            text.append(". (to open a directory pass it as first argument)");
            return Err(text);
        }
        if self.nr_of_files == 0 {
            return Ok(Action::VerticalSplit);
        }
        Ok(
            match self.split {
                Some(Layout::Vertical) => Action::VerticalSplit,
                Some(Layout::Horizontal) => Action::HorizontalSplit,
                None => Action::Load,
            },
        )
    }

    /// Counts a file. There is at most one buffer for a file, so that one that was
    /// open already does not count.
    pub fn opened(&mut self, outcome: OpenOutcome)
        requires
            old(self).count() < usize::MAX,
        ensures
            final(self).layout() == old(self).layout(),
            final(self).count() == old(self).count() + if outcome == OpenOutcome::Opened {
                1int
            } else {
                0
            },
    {
        if outcome == OpenOutcome::Opened {
            self.nr_of_files += 1;
        }
    }

    pub fn finish(&self) -> (opened: Opened)
        ensures
            match opened {
                Opened::Empty => self.count() == 0,
                Opened::Status(text) => self.count() > 0 && text@ == loaded(self.count()),
            },
    {
        // if all files were invalid, replace with empty buffer
        if self.nr_of_files == 0 {
            return Opened::Empty;
        }
        let mut text = "Loaded ".to_string();
        text.append(decimal_of(self.nr_of_files as u64).as_str());
        // avoid "Loaded 1 files." grammo
        if self.nr_of_files == 1 {
            text.append(" file.");
        } else {
            text.append(" files.");
        }
        Opened::Status(text)
    }
}

/// What becomes of the files of the command line: `outcomes` says what came of
/// opening each of them.
pub fn count_files(outcomes: &Vec<OpenOutcome>) -> (opened: Opened)
    ensures
        match opened {
            Opened::Empty => opened_count(outcomes@, outcomes@.len() as int) == 0,
            Opened::Status(text) => opened_count(outcomes@, outcomes@.len() as int) > 0 && text@
                == loaded(opened_count(outcomes@, outcomes@.len() as int)),
        },
{
    let mut files = OpeningFiles::new(None);
    let mut i: usize = 0;
    while i < outcomes.len()
        invariant
            i <= outcomes.len(),
            files.count() == opened_count(outcomes@, i as int),
            files.count() <= i,
        decreases outcomes.len() - i,
    {
        files.opened(outcomes[i]);
        i += 1;
    }
    files.finish()
}

/// The first file that is opened always gets a window of its own, whatever could not
/// be opened before it.
pub proof fn law_first_opened_file_has_a_window(
    outcomes: Seq<OpenOutcome>,
    n: int,
    layout: Option<Layout>,
)
    requires
        0 <= n <= outcomes.len(),
        forall|i: int| 0 <= i < n ==> #[trigger] outcomes[i] != OpenOutcome::Opened,
    ensures
        opened_count(outcomes, n) == 0,
        action_for(opened_count(outcomes, n), layout) == Action::VerticalSplit,
    decreases n,
{
    if n > 0 {
        law_first_opened_file_has_a_window(outcomes, n - 1, layout);
    }
}

/// Approvals are only given without asking where the server for tools was started.
pub fn auto_approves(mcp: bool, mcp_auto_approve: bool) -> (b: bool)
    ensures
        b == (mcp && mcp_auto_approve),
{
    mcp && mcp_auto_approve
}

/// A file counts where it was opened anew, and only there.
pub proof fn law_files_opened_anew_are_counted(outcomes: Seq<OpenOutcome>, n: int)
    requires
        0 <= n <= outcomes.len(),
    ensures
        opened_count(outcomes, n) == outcomes.take(n).filter(|x: OpenOutcome| x == OpenOutcome::Opened).len(),
    decreases n,
{
    reveal(Seq::filter);
    if n > 0 {
        law_files_opened_anew_are_counted(outcomes, n - 1);
        assert(outcomes.take(n).drop_last() =~= outcomes.take(n - 1));
    }
}

/// The tutor goes before the files. A directory is opened only as the first argument: to
/// pick a file from, and the files behind it are opened. Without an argument the editor
/// starts empty, or with what comes in where that is no terminal.
pub proof fn law_arguments_decide_what_is_opened(files: Seq<FileArg>, is_terminal: bool)
    ensures
        opening_of(true, files, is_terminal) == Opening::Tutor,
        files.len() == 0 && is_terminal ==> opening_of(false, files, is_terminal) == (
        Opening::Empty { picker: false }),
        files.len() == 0 && !is_terminal ==> opening_of(false, files, is_terminal)
            == Opening::Stdin,
        files.len() > 0 && !files[0].is_dir ==> opening_of(false, files, is_terminal) == (
        Opening::Files { picker: false, first: 0 }),
        files.len() == 1 && files[0].is_dir ==> opening_of(false, files, is_terminal) == (
        Opening::Empty { picker: true }),
        files.len() > 1 && files[0].is_dir ==> opening_of(false, files, is_terminal) == (
        Opening::Files { picker: true, first: 1 }),
{
}

/// The first file gets a window of its own; the others are shown as asked for, and only
/// loaded where nothing was asked for.
pub proof fn law_files_are_shown_as_asked_for(n: nat)
    ensures
        action_for(0, None) == Action::VerticalSplit,
        action_for(0, Some(Layout::Horizontal)) == Action::VerticalSplit,
        n > 0 ==> action_for(n, None) == Action::Load,
        n > 0 ==> action_for(n, Some(Layout::Horizontal)) == Action::HorizontalSplit,
        n > 0 ==> action_for(n, Some(Layout::Vertical)) == Action::VerticalSplit,
{
}

/// The number of files is told, and one file in the singular.
pub proof fn law_loaded_files_are_told(n: nat)
    ensures
        loaded(1) == "Loaded "@ + decimal(1) + " file."@,
        n != 1 ==> loaded(n) == "Loaded "@ + decimal(n) + " files."@,
{
}

} // verus!
