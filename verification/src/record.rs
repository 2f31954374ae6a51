use vstd::prelude::*;

verus! {

/// The abstract value of a matched file record: the four fields as
/// sequences of characters.
pub struct FileView {
    pub name: Seq<char>,
    pub folder: Seq<char>,
    pub creation_date: Seq<char>,
    pub path: Seq<char>,
}

/// One file whose name matched the search target: its base name, the
/// directory under which it was found, its creation timestamp already
/// formatted as `YYYY-MM-DD HH:MM:SS` in UTC, and the full path used to
/// delete it. A record is immutable after construction.
#[derive(PartialEq, Debug)]
pub struct File {
    pub name: String,
    pub folder: String,
    pub creation_date: String,
    path: String,
}

impl View for File {
    type V = FileView;

    closed spec fn view(&self) -> FileView {
        FileView {
            name: self.name@,
            folder: self.folder@,
            creation_date: self.creation_date@,
            path: self.path@,
        }
    }
}

impl File {
    /// Builds a record from its four fields; a plain field assignment with no
    /// derived transformation.
    pub fn new(name: &str, folder: &str, creation_date: &str, path: &str) -> (r: Self)
        ensures
            r@ == (FileView { name: name@, folder: folder@, creation_date: creation_date@, path: path@ }),
    {
        Self {
            name: name.to_owned(),
            folder: folder.to_owned(),
            creation_date: creation_date.to_owned(),
            path: path.to_owned(),
        }
    }

    /// The full path of the underlying file, as the deletion step needs it.
    pub fn path(&self) -> (r: &String)
        ensures
            r@ == self@.path,
    {
        &self.path
    }

    /// The text the interactive listing shows for this record: name, folder
    /// and creation date, each on its own indented line.
    pub fn info_text(&self) -> (r: String)
        ensures
            r@ == "\tfile name: "@ + self@.name + " \n\tdirectory: "@ + self@.folder
                + " \n\tcreation date: "@ + self@.creation_date,
    {
        let r = String::from_str("\tfile name: ").concat(self.name.as_str()).concat(
            " \n\tdirectory: ",
        ).concat(self.folder.as_str()).concat(" \n\tcreation date: ").concat(
            self.creation_date.as_str(),
        );
        proof {
            assert(r@ =~= "\tfile name: "@ + self@.name + " \n\tdirectory: "@ + self@.folder
                + " \n\tcreation date: "@ + self@.creation_date);
        }
        r
    }
}

} // verus!
