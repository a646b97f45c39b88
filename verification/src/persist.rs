use vstd::prelude::*;

verus! {

/// Why a filesystem access failed.
#[derive(Clone, Copy, Debug, PartialEq, Eq, Structural)]
pub enum IoError {
    /// The path does not exist.
    NotFound,
    /// The path exists but may not be accessed.
    PermissionDenied,
    /// Any other underlying failure.
    Other,
}

/// The model of the one file the persistence adapter manages: `None` when
/// the path does not exist, else the file's text. The adapter around real
/// storage mirrors every read and write through this model.
pub struct FileModel {
    pub content: Option<String>,
}

impl View for FileModel {
    type V = Option<Seq<char>>;

    open spec fn view(&self) -> Option<Seq<char>> {
        match self.content {
            Some(ref s) => Some(s@),
            None => None,
        }
    }
}

/// What `ensure_default` does to the file: create it with the seed text
/// when the path does not exist, and change nothing when it does.
pub open spec fn ensure_default_spec(c: Option<Seq<char>>, seed: Seq<char>) -> Option<Seq<char>> {
    match c {
        None => Some(seed),
        Some(t) => Some(t),
    }
}

impl FileModel {
    /// A path that does not exist yet.
    pub fn missing() -> (r: FileModel)
        ensures
            r@ == None::<Seq<char>>,
    {
        FileModel { content: None }
    }

    /// Read the whole text; `NotFound` when the path does not exist.
    pub fn load(&self) -> (r: Result<String, IoError>)
        ensures
            match r {
                Ok(s) => self@ == Some(s@),
                Err(e) => self@ == None::<Seq<char>> && e == IoError::NotFound,
            },
    {
        match &self.content {
            Some(s) => Ok(s.clone()),
            None => Err(IoError::NotFound),
        }
    }

    /// Replace the whole text, creating the file when absent.
    pub fn save(&mut self, text: &str)
        ensures
            final(self)@ == Some(text@),
    {
        self.content = Some(text.to_owned());
    }

    /// Bootstrap: write `seed` when the path does not exist; a no-op when
    /// it does.
    pub fn ensure_default(&mut self, seed: &str)
        ensures
            final(self)@ == ensure_default_spec(old(self)@, seed@),
    {
        match &self.content {
            Some(_) => (),
            None => {
                self.content = Some(seed.to_owned());
            },
        }
    }
}

/// Bootstrap: on a missing path `ensure_default` creates the file with
/// exactly the seed text, and running it again changes nothing, whatever
/// state it found.
pub proof fn lemma_bootstrap(c: Option<Seq<char>>, seed: Seq<char>)
    ensures
        ensure_default_spec(None, seed) == Some(seed),
        ensure_default_spec(ensure_default_spec(c, seed), seed) == ensure_default_spec(c, seed),
{
}

} // verus!
