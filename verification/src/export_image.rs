use vstd::prelude::*;

verus! {

/// The state of the dialog that exports the canvas as an image: the factor
/// by which the image is enlarged and the name of the file.
#[derive(Debug)]
pub struct ExportImageWindow {
    pub open: bool,
    pub scale: u32,
    pub file_name: String,
}

impl ExportImageWindow {
    /// Opens the dialog.
    pub fn open(&mut self)
        ensures
            *final(self) == (ExportImageWindow { open: true, ..*old(self) }),
    {
        self.open = true;
    }

    /// Takes the answer of the button that exports the image. Where it was
    /// clicked and the file has a name, the image is to be written and the
    /// dialog closes; else nothing changes.
    pub fn export(&mut self, clicked: bool) -> (write: bool)
        ensures
            write == (clicked && old(self).file_name@.len() > 0),
            write ==> *final(self) == (ExportImageWindow { open: false, ..*old(self) }),
            !write ==> *final(self) == *old(self),
    {
        if clicked && !self.file_name.as_str().is_empty() {
            self.open = false;
            true
        } else {
            false
        }
    }
}

impl Default for ExportImageWindow {
    /// Closed, at scale 1, with no file name.
    fn default() -> (window: Self)
        ensures
            !window.open,
            window.scale == 1,
            window.file_name@ == Seq::<char>::empty(),
    {
        Self { open: false, file_name: String::new(), scale: 1 }
    }
}

} // verus!
