use vstd::prelude::*;

verus! {

/// A place where review progress is kept between runs, for users of the
/// library to implement (on files, a database, ...).
pub trait Storage {
    /// Keeps `data` as the saved progress.
    fn save_progress(&self, data: &str);

    /// The saved progress, if there is any.
    fn load_progress(&self) -> Option<String>;
}

} // verus!
