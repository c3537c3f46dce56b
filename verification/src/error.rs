//! What can go wrong between the tool and the Steam client.

use vstd::prelude::*;

use crate::fs_path;
use crate::fs_path::FsPath;
use crate::text;
use crate::vdf;

verus! {

/// Why something could not be done.
#[derive(Debug, PartialEq)]
pub enum Error {
    /// No Steam installation was found in any of the known locations.
    SteamNotFound,
    /// The Steam root exists but does not contain a usable `steamclient.so`.
    ClientLibraryNotFound { searched: Vec<FsPath> },
    /// `dlopen` failed.
    LoadLibrary { path: FsPath, source: String },
    /// A required export was absent from `steamclient.so`.
    MissingExport(&'static str),
    /// `CreateInterface` returned null for this version string.
    CreateInterface(&'static str),
    /// `CreateSteamPipe` returned 0.
    CreateSteamPipe,
    /// `ConnectToGlobalUser` returned 0. Almost always means Steam is not
    /// running, or the account is busy in a Family Share session.
    ConnectToGlobalUser,
    /// An interface getter on ISteamClient returned null.
    GetInterface(&'static str),
    /// The app ID reported by Steam did not match the one requested.
    AppIdMismatch { requested: u32, actual: u32 },
    /// The vtable does not look like what we expect, so calling through it
    /// would execute arbitrary functions. Refuse rather than corrupt data.
    VtableSanityCheckFailed(String),
    /// The operating system's words for a failed operation on a file.
    Io(String),
    /// The schema file could not be read as a document.
    Vdf(vdf::Error),
}

/// What an [`Error`] says.
pub enum ErrorModel {
    SteamNotFound,
    ClientLibraryNotFound { searched: Seq<Seq<u8>> },
    LoadLibrary { path: Seq<u8>, source: Seq<char> },
    MissingExport(Seq<char>),
    CreateInterface(Seq<char>),
    CreateSteamPipe,
    ConnectToGlobalUser,
    GetInterface(Seq<char>),
    AppIdMismatch { requested: u32, actual: u32 },
    VtableSanityCheckFailed(Seq<char>),
    Io(Seq<char>),
    Vdf(vdf::Error),
}

impl View for Error {
    type V = ErrorModel;

    open spec fn view(&self) -> ErrorModel {
        match *self {
            Error::SteamNotFound => ErrorModel::SteamNotFound,
            Error::ClientLibraryNotFound { searched } => ErrorModel::ClientLibraryNotFound {
                searched: fs_path::spelled(searched@),
            },
            Error::LoadLibrary { path, source } => ErrorModel::LoadLibrary {
                path: path@,
                source: source@,
            },
            Error::MissingExport(name) => ErrorModel::MissingExport(name@),
            Error::CreateInterface(name) => ErrorModel::CreateInterface(name@),
            Error::CreateSteamPipe => ErrorModel::CreateSteamPipe,
            Error::ConnectToGlobalUser => ErrorModel::ConnectToGlobalUser,
            Error::GetInterface(name) => ErrorModel::GetInterface(name@),
            Error::AppIdMismatch { requested, actual } => ErrorModel::AppIdMismatch {
                requested,
                actual,
            },
            Error::VtableSanityCheckFailed(detail) => ErrorModel::VtableSanityCheckFailed(detail@),
            Error::Io(words) => ErrorModel::Io(words@),
            Error::Vdf(e) => ErrorModel::Vdf(e),
        }
    }
}

/// Paths as text, with a comma and a space between them.
pub open spec fn listed(paths: Seq<Seq<u8>>) -> Seq<char>
    decreases paths.len(),
{
    if paths.len() == 0 {
        Seq::empty()
    } else if paths.len() == 1 {
        text::text_of_bytes(paths[0])
    } else {
        listed(paths.drop_last()) + ", "@ + text::text_of_bytes(paths.last())
    }
}

/// What an error says in words.
pub open spec fn words_of(e: ErrorModel) -> Seq<char> {
    match e {
        ErrorModel::SteamNotFound => "no Steam installation found (looked in ~/.steam/steam, ~/.local/share/Steam and the Flatpak location)"@,
        ErrorModel::ClientLibraryNotFound { searched } => "steamclient.so not found; looked in: "@
            + listed(searched),
        ErrorModel::LoadLibrary { path, source } => "failed to load "@ + text::text_of_bytes(path)
            + ": "@ + source,
        ErrorModel::MissingExport(name) => "steamclient.so does not export "@ + name,
        ErrorModel::CreateInterface(name) => "CreateInterface returned null for "@ + name,
        ErrorModel::CreateSteamPipe => "failed to create a Steam pipe"@,
        ErrorModel::ConnectToGlobalUser => "failed to connect to the global Steam user. Start Steam and sign in, then try again. If the account is in a Family Share session elsewhere, the library may be locked."@,
        ErrorModel::GetInterface(name) => "Steam returned no "@ + name + " interface"@,
        ErrorModel::AppIdMismatch { requested, actual } => "app ID mismatch: asked for "@
            + text::decimal(requested as nat) + ", Steam reports "@ + text::decimal(actual as nat),
        ErrorModel::VtableSanityCheckFailed(detail) => "steamclient.so vtable layout is not what this build expects ("@
            + detail
            + "). Refusing to continue, because calling through a mismatched vtable can corrupt your stats."@,
        ErrorModel::Io(words) => words,
        ErrorModel::Vdf(e) => "schema parse error: "@ + vdf::error_text(e),
    }
}

impl Error {
    /// The error in words.
    pub fn message(&self) -> (r: String)
        ensures
            r@ == words_of(self@),
    {
        match self {
            Error::SteamNotFound => "no Steam installation found (looked in ~/.steam/steam, ~/.local/share/Steam and the Flatpak location)".to_owned(),
            Error::ClientLibraryNotFound { searched } => {
                let mut s = "steamclient.so not found; looked in: ".to_owned();
                let ghost lead = s@;
                let ghost all = fs_path::spelled(searched@);
                assert(s@ == lead + listed(all.take(0)));
                for i in 0..searched.len()
                    invariant
                        all == fs_path::spelled(searched@),
                        s@ == lead + listed(all.take(i as int)),
                {
                    assert(all.take(i + 1).drop_last() == all.take(i as int));
                    if i > 0 {
                        s.append(", ");
                    }
                    s.append(searched[i].display().as_str());
                    assert(s@ =~= lead + listed(all.take(i + 1)));
                }
                assert(all.take(all.len() as int) == all);
                s
            },
            Error::LoadLibrary { path, source } => {
                let mut s = "failed to load ".to_owned();
                s.append(path.display().as_str());
                s.append(": ");
                s.append(source.as_str());
                s
            },
            Error::MissingExport(name) => {
                let mut s = "steamclient.so does not export ".to_owned();
                s.append(name);
                s
            },
            Error::CreateInterface(name) => {
                let mut s = "CreateInterface returned null for ".to_owned();
                s.append(name);
                s
            },
            Error::CreateSteamPipe => "failed to create a Steam pipe".to_owned(),
            Error::ConnectToGlobalUser => "failed to connect to the global Steam user. Start Steam and sign in, then try again. If the account is in a Family Share session elsewhere, the library may be locked.".to_owned(),
            Error::GetInterface(name) => {
                let mut s = "Steam returned no ".to_owned();
                s.append(name);
                s.append(" interface");
                s
            },
            Error::AppIdMismatch { requested, actual } => {
                let mut s = "app ID mismatch: asked for ".to_owned();
                text::push_decimal(&mut s, *requested as u64);
                s.append(", Steam reports ");
                text::push_decimal(&mut s, *actual as u64);
                s
            },
            Error::VtableSanityCheckFailed(detail) => {
                let mut s = "steamclient.so vtable layout is not what this build expects (".to_owned();
                s.append(detail.as_str());
                s.append("). Refusing to continue, because calling through a mismatched vtable can corrupt your stats.");
                s
            },
            Error::Io(words) => words.clone(),
            Error::Vdf(e) => {
                let mut s = "schema parse error: ".to_owned();
                s.append(e.message().as_str());
                s
            },
        }
    }
}

impl From<vdf::Error> for Error {
    fn from(e: vdf::Error) -> (r: Self) {
        Error::Vdf(e)
    }
}

impl vstd::std_specs::convert::FromSpecImpl<vdf::Error> for Error {
    open spec fn obeys_from_spec() -> bool {
        true
    }

    open spec fn from_spec(e: vdf::Error) -> Self {
        Error::Vdf(e)
    }
}

proof fn a_path_is_listed(paths: Seq<Seq<u8>>, i: int) -> (r: (Seq<char>, Seq<char>))
    requires
        0 <= i < paths.len(),
    ensures
        listed(paths) == r.0 + text::text_of_bytes(paths[i]) + r.1,
    decreases paths.len(),
{
    let none = Seq::<char>::empty();
    if paths.len() == 1 {
        assert(listed(paths) =~= none + text::text_of_bytes(paths[i]) + none);
        (none, none)
    } else if i == paths.len() - 1 {
        let front = listed(paths.drop_last()) + ", "@;
        assert(listed(paths) =~= front + text::text_of_bytes(paths[i]) + none);
        (front, none)
    } else {
        let (a, b) = a_path_is_listed(paths.drop_last(), i);
        let back = b + ", "@ + text::text_of_bytes(paths.last());
        assert(listed(paths) =~= a + text::text_of_bytes(paths[i]) + back);
        (a, back)
    }
}

/// Where no client library was found, every place that was searched is told.
pub proof fn every_searched_place_is_told(searched: Seq<Seq<u8>>, i: int)
    requires
        0 <= i < searched.len(),
    ensures
        exists|a: Seq<char>, b: Seq<char>|
            words_of(ErrorModel::ClientLibraryNotFound { searched }) == #[trigger] (
            a + text::text_of_bytes(searched[i]) + b),
{
    let (a, b) = a_path_is_listed(searched, i);
    let front = "steamclient.so not found; looked in: "@ + a;
    assert(words_of(ErrorModel::ClientLibraryNotFound { searched }) =~= front + text::text_of_bytes(
        searched[i],
    ) + b);
}

/// An error's words tell what it is about: the library and why it could not be loaded, the
/// export or the interface that is missing, both app IDs, what is wrong with a slot, what
/// the operating system said, and what is wrong with a document.
pub proof fn words_tell_what_is_wrong(
    path: Seq<u8>,
    name: Seq<char>,
    requested: u32,
    actual: u32,
    e: vdf::Error,
)
    ensures
        exists|a: Seq<char>, b: Seq<char>|
            words_of(ErrorModel::LoadLibrary { path, source: name }) == #[trigger] (
            a + text::text_of_bytes(path) + b + name),
        exists|a: Seq<char>| words_of(ErrorModel::MissingExport(name)) == #[trigger] (a + name),
        exists|a: Seq<char>| words_of(ErrorModel::CreateInterface(name)) == #[trigger] (a + name),
        exists|a: Seq<char>, b: Seq<char>|
            words_of(ErrorModel::GetInterface(name)) == #[trigger] (a + name + b),
        exists|a: Seq<char>, b: Seq<char>|
            words_of(ErrorModel::AppIdMismatch { requested, actual }) == #[trigger] (
            a + text::decimal(requested as nat) + b + text::decimal(actual as nat)),
        exists|a: Seq<char>, b: Seq<char>|
            words_of(ErrorModel::VtableSanityCheckFailed(name)) == #[trigger] (a + name + b),
        words_of(ErrorModel::Io(name)) == name,
        exists|a: Seq<char>| words_of(ErrorModel::Vdf(e)) == #[trigger] (a + vdf::error_text(e)),
{
    assert(words_of(ErrorModel::LoadLibrary { path, source: name }) == "failed to load "@
        + text::text_of_bytes(path) + ": "@ + name);
    assert(words_of(ErrorModel::MissingExport(name)) == "steamclient.so does not export "@ + name);
    assert(words_of(ErrorModel::CreateInterface(name)) == "CreateInterface returned null for "@
        + name);
    assert(words_of(ErrorModel::GetInterface(name)) == "Steam returned no "@ + name
        + " interface"@);
    assert(words_of(ErrorModel::AppIdMismatch { requested, actual })
        == "app ID mismatch: asked for "@ + text::decimal(requested as nat) + ", Steam reports "@
        + text::decimal(actual as nat));
    assert(words_of(ErrorModel::VtableSanityCheckFailed(name))
        == "steamclient.so vtable layout is not what this build expects ("@ + name
        + "). Refusing to continue, because calling through a mismatched vtable can corrupt your stats."@);
    assert(words_of(ErrorModel::Vdf(e)) == "schema parse error: "@ + vdf::error_text(e));
}

} // verus!
