use vstd::prelude::*;
use crate::canvas::Canvas;
use crate::grid::Grid;

verus! {

/// The state of the dialog that starts a new file: the size of the new
/// canvas and the name of the file.
#[derive(Debug)]
pub struct NewFileWinodw {
    pub open: bool,
    pub width: usize,
    pub height: usize,
    pub file_name: String,
}

impl NewFileWinodw {
    /// Opens the dialog.
    pub fn open(&mut self)
        ensures
            *final(self) == (NewFileWinodw { open: true, ..*old(self) }),
    {
        self.open = true;
    }

    /// Whether a click on the button that creates the file is heeded: the
    /// file needs a name.
    pub open spec fn creates(&self, clicked: bool) -> bool {
        clicked && self.file_name@.len() > 0
    }

    /// Takes the answer of the button that creates the file. Where it was
    /// clicked and the file has a name, an empty canvas of the size asked
    /// for is returned and the dialog closes; else nothing is returned and
    /// nothing changes.
    pub fn create(&mut self, clicked: bool) -> (canvas: Option<Canvas>)
        requires
            old(self).creates(clicked) ==> old(self).width * old(self).height <= usize::MAX,
        ensures
            canvas is Some <==> old(self).creates(clicked),
            old(self).creates(clicked) ==> canvas->0.wf() && canvas->0@ == Grid::blank(
                old(self).width as nat,
                old(self).height as nat,
            ) && *final(self) == (NewFileWinodw { open: false, ..*old(self) }),
            !old(self).creates(clicked) ==> *final(self) == *old(self),
    {
        if clicked && !self.file_name.as_str().is_empty() {
            self.open = false;
            Some(Canvas::with_size(self.width, self.height))
        } else {
            None
        }
    }
}

impl Default for NewFileWinodw {
    /// Closed, for a canvas of 16 by 16 cells, with no file name.
    fn default() -> (window: Self)
        ensures
            !window.open,
            window.width == 16,
            window.height == 16,
            window.file_name@ == Seq::<char>::empty(),
    {
        Self { open: false, width: 16, height: 16, file_name: String::new() }
    }
}

} // verus!
