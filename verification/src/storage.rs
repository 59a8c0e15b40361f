//! A model of the backing volume under the atomic replace protocol: the real
//! path and its temporary sibling. Writes target the temporary path; a
//! commit stands for the rename that atomically replaces the real path. A
//! crash between the write and the commit loses only the temporary file, so
//! the real path always holds a fully-old or fully-new snapshot, never a
//! partial one. The caller's file layer performs the same three steps on the
//! real filesystem.

use vstd::prelude::*;

verus! {

/// The observable state of the two paths.
pub struct FileImage {
    main: Option<String>,
    tmp: Option<String>,
}

/// The mathematical value of a `FileImage`.
pub struct FileImageV {
    pub main: Option<Seq<char>>,
    pub tmp: Option<Seq<char>>,
}

impl View for FileImage {
    type V = FileImageV;

    closed spec fn view(&self) -> FileImageV {
        FileImageV {
            main: match &self.main {
                Option::Some(s) => Option::Some(s@),
                Option::None => Option::None,
            },
            tmp: match &self.tmp {
                Option::Some(s) => Option::Some(s@),
                Option::None => Option::None,
            },
        }
    }
}

impl FileImage {
    /// A volume whose backing file does not exist yet.
    pub fn missing() -> (r: Self)
        ensures
            r@.main is None,
            r@.tmp is None,
    {
        FileImage { main: Option::None, tmp: Option::None }
    }

    /// A volume whose backing file holds this content.
    pub fn with_content(content: String) -> (r: Self)
        ensures
            r@.main == Option::Some(content@),
            r@.tmp is None,
    {
        FileImage { main: Option::Some(content), tmp: Option::None }
    }

    /// Writes the new snapshot text to the temporary path and makes it
    /// durable; the real path is untouched, so a crash here loses nothing.
    pub fn write_tmp(&mut self, content: String)
        ensures
            final(self)@.main == old(self)@.main,
            final(self)@.tmp == Option::Some(content@),
    {
        self.tmp = Option::Some(content);
    }

    /// The atomic rename: the temporary file replaces the real path whole.
    pub fn commit(&mut self)
        requires
            old(self)@.tmp is Some,
        ensures
            final(self)@.main == old(self)@.tmp,
            final(self)@.tmp is None,
    {
        let mut taken: Option<String> = Option::None;
        core::mem::swap(&mut taken, &mut self.tmp);
        self.main = taken;
    }

    /// Removes the backing file, as external tampering would.
    pub fn delete_main(&mut self)
        ensures
            final(self)@.main is None,
            final(self)@.tmp == old(self)@.tmp,
    {
        self.main = Option::None;
    }

    /// Reads the real path's content, if the file exists.
    pub fn read_main(&self) -> (r: Option<String>)
        ensures
            match r {
                Option::Some(s) => self@.main == Option::Some(s@),
                Option::None => self@.main is None,
            },
    {
        match &self.main {
            Option::Some(s) => Option::Some(s.clone()),
            Option::None => Option::None,
        }
    }
}

} // verus!
