//! The options of a conversion and their validation.
use vstd::prelude::*;

verus! {

/// How a JSON array is flattened.
#[derive(Clone, Copy, PartialEq, Eq, Structural, PartialOrd, Ord, Debug)]
pub enum ListHandling {
    /// An array of scalars becomes one entry whose value is the comma-joined
    /// texts of its elements; an array holding an array or an object is left out.
    SingleProp,
    /// Each element becomes its own namespace, named by its index.
    MultiProp,
}

/// The text between the key and the value of an entry.
#[derive(Clone, Copy, PartialEq, Eq, Structural, PartialOrd, Ord, Debug)]
pub enum EntrySeparator {
    Colon,
    Equals,
    Space,
}

pub open spec fn separator_text(s: EntrySeparator) -> Seq<char> {
    match s {
        EntrySeparator::Colon => seq![':'],
        EntrySeparator::Equals => seq!['='],
        EntrySeparator::Space => seq![' '],
    }
}

/// Why a configuration was refused.
#[derive(Debug, PartialEq, Eq)]
pub enum ConfigValidationError {
    /// The path could not be checked for existence.
    InvalidPathError(String),
    /// The source file does not exist.
    MissingFileError(String),
}

impl ConfigValidationError {
    /// The message shown to the user.
    pub fn message(&self) -> (r: String)
        ensures
            r@ == (match self {
                ConfigValidationError::InvalidPathError(s) => "Invalid filepath: "@ + s@,
                ConfigValidationError::MissingFileError(s) => "File does not exist: "@ + s@,
            }),
    {
        match self {
            ConfigValidationError::InvalidPathError(s) => {
                let mut r = String::from_str("Invalid filepath: ");
                r.append(s.as_str());
                r
            },
            ConfigValidationError::MissingFileError(s) => {
                let mut r = String::from_str("File does not exist: ");
                r.append(s.as_str());
                r
            },
        }
    }
}

/// What a check of a path for existence found.
#[derive(Clone, Copy, PartialEq, Eq, Structural, Debug)]
pub enum PathStatus {
    Exists,
    Missing,
    /// The check itself failed (no permission, a broken link, ...).
    Inaccessible,
}

/// The options of one conversion. Paths are held as text.
#[derive(Debug)]
pub struct Config {
    source: String,
    dest: Option<String>,
    pub debug: bool,
    list_handling: ListHandling,
    entry_separator: EntrySeparator,
    pub discard_wsp: bool,
}

impl Config {
    pub closed spec fn spec_source(&self) -> Seq<char> {
        self.source@
    }

    pub closed spec fn spec_dest(&self) -> Option<Seq<char>> {
        match self.dest {
            Some(d) => Some(d@),
            None => None,
        }
    }

    pub closed spec fn spec_debug(&self) -> bool {
        self.debug
    }

    pub closed spec fn spec_discard_wsp(&self) -> bool {
        self.discard_wsp
    }

    pub closed spec fn spec_list_handling(&self) -> ListHandling {
        self.list_handling
    }

    pub closed spec fn spec_entry_separator(&self) -> EntrySeparator {
        self.entry_separator
    }

    pub fn new(
        source: String,
        dest: Option<String>,
        debug: bool,
        list_handling: ListHandling,
        entry_separator: EntrySeparator,
        discard_wsp: bool,
    ) -> (c: Config)
        ensures
            c.spec_source() == source@,
            c.spec_dest() == (match dest {
                Some(d) => Some(d@),
                None => None::<Seq<char>>,
            }),
            c.spec_debug() == debug,
            c.spec_list_handling() == list_handling,
            c.spec_entry_separator() == entry_separator,
            c.spec_discard_wsp() == discard_wsp,
    {
        Config { source, dest, debug, list_handling, entry_separator, discard_wsp }
    }

    /// A configuration with an empty source path, no destination, debug output,
    /// one entry per array element, `=` as separator and leading whitespace kept.
    pub fn empty() -> (c: Config)
        ensures
            c.spec_source() == Seq::<char>::empty(),
            c.spec_dest() is None,
            c.spec_debug(),
            c.spec_list_handling() == ListHandling::MultiProp,
            c.spec_entry_separator() == EntrySeparator::Equals,
            !c.spec_discard_wsp(),
    {
        Config {
            source: String::new(),
            dest: None,
            debug: true,
            list_handling: ListHandling::MultiProp,
            entry_separator: EntrySeparator::Equals,
            discard_wsp: false,
        }
    }

    /// Accepts the configuration when its source file exists and neither path
    /// failed to be checked. `source_status` is what a check of the source path
    /// found, `dest_status` what a check of the destination path found; the
    /// latter counts only when a destination is set, and it need not exist.
    pub fn validate(self, source_status: PathStatus, dest_status: PathStatus) -> (r: Result<
        Config,
        ConfigValidationError,
    >)
        ensures
            source_status == PathStatus::Inaccessible ==> (r matches Err(
                ConfigValidationError::InvalidPathError(p),
            ) && p@ == self.spec_source()),
            source_status == PathStatus::Missing ==> (r matches Err(
                ConfigValidationError::MissingFileError(p),
            ) && p@ == self.spec_source()),
            source_status == PathStatus::Exists && self.spec_dest() is Some && dest_status
                == PathStatus::Inaccessible ==> (r matches Err(
                ConfigValidationError::InvalidPathError(p),
            ) && Some(p@) == self.spec_dest()),
            source_status == PathStatus::Exists && (self.spec_dest() is None || dest_status
                != PathStatus::Inaccessible) ==> (r matches Ok(c) && c == self),
    {
        match source_status {
            PathStatus::Inaccessible => {
                return Err(Self::invalid_path_error(&self.source));
            },
            PathStatus::Missing => {
                return Err(ConfigValidationError::MissingFileError(self.source.clone()));
            },
            PathStatus::Exists => {},
        }
        if let Some(dest) = &self.dest {
            if dest_status == PathStatus::Inaccessible {
                return Err(Self::invalid_path_error(dest));
            }
        }
        Ok(self)
    }

    fn invalid_path_error(path: &String) -> (e: ConfigValidationError)
        ensures
            e matches ConfigValidationError::InvalidPathError(p) && p@ == path@,
    {
        ConfigValidationError::InvalidPathError(path.clone())
    }

    /// The source path.
    pub fn source(&self) -> (r: &str)
        ensures
            r@ == self.spec_source(),
    {
        self.source.as_str()
    }

    /// The destination path, if one is set.
    pub fn dest(&self) -> (r: Option<&str>)
        ensures
            match r {
                Some(d) => self.spec_dest() == Some(d@),
                None => self.spec_dest() is None,
            },
    {
        match &self.dest {
            Some(d) => Some(d.as_str()),
            None => None,
        }
    }

    /// How arrays are flattened.
    pub fn list_handling(&self) -> (r: &ListHandling)
        ensures
            *r == self.spec_list_handling(),
    {
        &self.list_handling
    }

    /// Whether leading whitespace of values is dropped rather than escaped.
    pub fn discard_wsp(&self) -> (r: bool)
        ensures
            r == self.spec_discard_wsp(),
    {
        self.discard_wsp
    }

    /// The text put between key and value.
    pub fn entry_separator(&self) -> (r: &'static str)
        ensures
            r@ == separator_text(self.spec_entry_separator()),
    {
        proof {
            reveal_strlit("=");
            reveal_strlit(":");
            reveal_strlit(" ");
        }
        match self.entry_separator {
            EntrySeparator::Equals => "=",
            EntrySeparator::Colon => ":",
            EntrySeparator::Space => " ",
        }
    }
}

} // verus!
