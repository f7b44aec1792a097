//! Saving a command to a file: how the file is opened, decided here; the
//! writing itself is the application's.
use vstd::prelude::*;

verus! {

/// Saves content to a file: `executable` asks for execute permission, and
/// `overwrite` allows replacing an existing file. An error comes back as its
/// message.
pub trait FileSaver {
    fn save(&self, path: String, content: Vec<u8>, executable: bool, overwrite: bool) -> Result<(), String>;
}

/// One request to a file saver: the path, the content, whether the file is
/// to be executable and whether an existing one may be replaced; and the
/// answer: none when it saved, the error's message otherwise.
pub struct SaveRequest {
    pub path: Seq<char>,
    pub content: Seq<u8>,
    pub executable: bool,
    pub overwrite: bool,
    pub answer: Option<Seq<char>>,
}

/// How a file is opened for saving: created anew (which fails when it
/// exists) or emptied, and the permission bits it is created with.
#[derive(Clone, Copy, Debug, PartialEq, Eq, Structural)]
pub struct OpenPlan {
    pub create_new: bool,
    pub truncate: bool,
    pub mode: u32,
}

/// On Unix, a file is created with mode 755 when executable and 644
/// otherwise; it is emptied when overwriting, and created anew otherwise.
pub open spec fn unix_open_plan(executable: bool, overwrite: bool) -> OpenPlan {
    OpenPlan { create_new: !overwrite, truncate: overwrite, mode: if executable { 0o755 } else { 0o644 } }
}

/// Opens a file as a plan says and writes content to it: the file system,
/// which the application provides.
pub trait FileWriter {
    fn write(&self, path: String, plan: OpenPlan, content: Vec<u8>) -> Result<(), String>;
}

/// A saver that opens files the Unix way and writes through `writer`.
pub struct UnixFileSaver<W> {
    pub writer: W,
}

impl<W: FileWriter> UnixFileSaver<W> {
    /// How a file is opened for the given request.
    pub fn open_plan(executable: bool, overwrite: bool) -> (p: OpenPlan)
        ensures
            p == unix_open_plan(executable, overwrite),
    {
        let mode: u32 = if executable { 0o755 } else { 0o644 };
        OpenPlan { create_new: !overwrite, truncate: overwrite, mode }
    }
}

impl<W: FileWriter> FileSaver for UnixFileSaver<W> {
    /// Hands the file to the writer with the plan that `open_plan` gives;
    /// whether the save succeeds is the file system's answer, which the
    /// writer returns.
    fn save(&self, path: String, content: Vec<u8>, executable: bool, overwrite: bool) -> (r: Result<(), String>)
        ensures
            call_ensures(W::write, (&self.writer, path, unix_open_plan(executable, overwrite), content), r),
    {
        let plan = Self::open_plan(executable, overwrite);
        self.writer.write(path, plan, content)
    }
}

/// The platform's file saver.
pub struct FileSavers;

impl FileSavers {
    /// The saver for this platform, writing through `writer`.
    pub fn new<W: FileWriter>(writer: W) -> (s: UnixFileSaver<W>)
        ensures
            s.writer == writer,
    {
        UnixFileSaver { writer }
    }
}

/// A Unix saver hands the file to its writer: whatever `save` answers for a
/// path, content and the two flags is what the writer answers when asked to
/// write that same content to that same path with the plan `open_plan`
/// gives for the flags (mode 755 when executable, created anew unless
/// overwriting).
pub proof fn law_save_writes_the_content<W: FileWriter>(
    saver: &UnixFileSaver<W>,
    path: String,
    content: Vec<u8>,
    executable: bool,
    overwrite: bool,
    answer: Result<(), String>,
)
    requires
        call_ensures(<UnixFileSaver<W> as FileSaver>::save, (saver, path, content, executable, overwrite), answer),
    ensures
        call_ensures(W::write, (&saver.writer, path, unix_open_plan(executable, overwrite), content), answer),
{
}

} // verus!
