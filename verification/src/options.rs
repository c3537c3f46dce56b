//! The command line.
//!
//! One binary with two modes:
//!
//! * `sam` — the picker: browse owned apps that have achievements.
//! * `sam --app <id>` — the editor for a single app.
//!
//! `steamclient.so` reads `SteamAppId` when it initialises. Setting it later
//! has no effect, and once a process has bound to an app it cannot rebind. So a
//! process can only ever act as one app, and opening a game means starting a new
//! process.

use vstd::prelude::*;

use crate::picker;
use crate::text;

verus! {

/// What the window is called.
pub const WINDOW_TITLE: &'static str = "Steam Achievement Manager";

/// How long to let the UI settle before capturing, in seconds, so stats have
/// arrived from Steam and the first icons have downloaded.
pub const SCREENSHOT_DELAY: u64 = 6;

/// What `--help` prints.
pub const HELP: &'static str = "Steam Achievement Manager (Linux)

USAGE:
    sam                 Browse owned apps that have achievements
    sam --app <ID>      Edit achievements and stats for one app

OPTIONS:
    -h, --help          Print this help
    -V, --version       Print version
    --screenshot <PATH> Render the window, save a PNG, then exit

ENVIRONMENT:
    SAM_STEAM_ROOT      Override Steam installation discovery

Steam must be running and signed in.";

/// What to open.
#[derive(Debug, Clone, Copy, PartialEq, Eq, Structural)]
pub enum Mode {
    Picker,
    Editor(u32),
}

/// Everything the command line can set.
#[derive(Debug, PartialEq, Eq)]
pub struct Options {
    pub mode: Mode,
    /// Render the window, save a PNG here, then exit. Useful for bug reports
    /// and for confirming the UI draws correctly on an unfamiliar setup.
    pub screenshot: Option<String>,
}

/// What the command line asks for.
#[derive(Debug, PartialEq, Eq)]
pub enum Request {
    /// Open a window.
    Run(Options),
    /// Print the help.
    Help,
    /// Print the version.
    Version,
}

/// What a [`Request`] says.
pub enum RequestModel {
    Run { mode: Mode, screenshot: Option<Seq<char>> },
    Help,
    Version,
}

impl View for Request {
    type V = RequestModel;

    open spec fn view(&self) -> RequestModel {
        match *self {
            Request::Run(options) => RequestModel::Run {
                mode: options.mode,
                screenshot: text::optional(options.screenshot),
            },
            Request::Help => RequestModel::Help,
            Request::Version => RequestModel::Version,
        }
    }
}

impl Request {
    /// The options of a window to open, if one is.
    pub fn options(self) -> (r: Option<Options>)
        ensures
            match self {
                Request::Run(options) => r == Some(options),
                _ => r is None,
            },
    {
        match self {
            Request::Run(options) => Some(options),
            _ => None,
        }
    }
}

/// The app ID that a text denotes, or why it denotes none. 0 is none.
pub open spec fn app_id_of(value: Seq<char>) -> Result<u32, Seq<char>> {
    match text::read_u32(value) {
        Some(id) if id != 0 => Ok(id as u32),
        _ => Err("'"@ + value + "' is not a valid app ID"@),
    }
}

/// What some arguments ask for, behind others that have set a mode and a
/// screenshot already.
pub open spec fn requested(
    args: Seq<Seq<char>>,
    mode: Mode,
    screenshot: Option<Seq<char>>,
) -> Result<RequestModel, Seq<char>>
    decreases args.len(),
{
    if args.len() == 0 {
        Ok(RequestModel::Run { mode, screenshot })
    } else {
        let arg = args[0];
        if arg == "--screenshot"@ {
            if args.len() < 2 {
                Err("--screenshot requires a path"@)
            } else {
                requested(args.skip(2), mode, Some(args[1]))
            }
        } else if arg == "-h"@ || arg == "--help"@ {
            Ok(RequestModel::Help)
        } else if arg == "-V"@ || arg == "--version"@ {
            Ok(RequestModel::Version)
        } else if arg == "--app"@ {
            if args.len() < 2 {
                Err("--app requires an app ID"@)
            } else {
                match app_id_of(args[1]) {
                    Ok(id) => requested(args.skip(2), Mode::Editor(id), screenshot),
                    Err(words) => Err(words),
                }
            }
        } else if text::occurs_at(arg, "--app="@, 0) {
            match app_id_of(arg.skip("--app="@.len() as int)) {
                Ok(id) => requested(args.skip(1), Mode::Editor(id), screenshot),
                Err(words) => Err(words),
            }
        } else if text::is_numeral(arg) {
            match app_id_of(arg) {
                Ok(id) => requested(args.skip(1), Mode::Editor(id), screenshot),
                Err(words) => Err(words),
            }
        } else {
            Err("unrecognised argument '"@ + arg + "'"@)
        }
    }
}

/// The app ID that a text denotes, or why it denotes none.
pub fn parse_app_id(value: &str) -> (r: Result<u32, String>)
    ensures
        match app_id_of(value@) {
            Ok(id) => r == Ok::<u32, String>(id),
            Err(words) => r matches Err(e) && e@ == words,
        },
{
    if let Some(id) = text::parse_u32(value) {
        if id != 0 {
            return Ok(id);
        }
    }
    let mut words = "'".to_owned();
    words.append(value);
    words.append("' is not a valid app ID");
    Err(words)
}

/// Reads the arguments behind the program's name.
pub fn parse_args(args: &Vec<String>) -> (r: Result<Request, String>)
    ensures
        match requested(text::texts_of(args@), Mode::Picker, None) {
            Ok(request) => r matches Ok(q) && q@ == request,
            Err(words) => r matches Err(e) && e@ == words,
        },
{
    let ghost all = text::texts_of(args@);
    let ghost whole = requested(all, Mode::Picker, None);
    let mut mode = Mode::Picker;
    let mut screenshot: Option<String> = None;
    let mut i: usize = 0;
    assert(all.skip(0) =~= all);
    while i < args.len()
        invariant
            i <= args@.len(),
            all == text::texts_of(args@),
            whole == requested(all, Mode::Picker, None),
            whole == requested(all.skip(i as int), mode, text::optional(screenshot)),
        decreases args@.len() - i,
    {
        let arg = args[i].as_str();
        let ghost rest = all.skip(i as int);
        proof {
            assert(rest[0] == arg@);
            assert(rest.skip(1) =~= all.skip(i + 1));
            if i + 1 < args@.len() {
                assert(rest[1] == args@[i + 1]@);
                assert(rest.skip(2) =~= all.skip(i + 2));
            }
        }
        if text::same_text(arg, "--screenshot") {
            if args.len() - i < 2 {
                return Err("--screenshot requires a path".to_owned());
            }
            screenshot = Some(args[i + 1].clone());
            i = i + 2;
        } else if text::same_text(arg, "-h") || text::same_text(arg, "--help") {
            return Ok(Request::Help);
        } else if text::same_text(arg, "-V") || text::same_text(arg, "--version") {
            return Ok(Request::Version);
        } else if text::same_text(arg, "--app") {
            if args.len() - i < 2 {
                return Err("--app requires an app ID".to_owned());
            }
            mode = Mode::Editor(parse_app_id(args[i + 1].as_str())?);
            i = i + 2;
        } else if text::starts_with(arg, "--app=") {
            let chars = text::chars_of(arg);
            let prefix = text::chars_of("--app=");
            assert(arg@.skip(prefix@.len() as int) =~= chars@.subrange(
                prefix@.len() as int,
                chars@.len() as int,
            ));
            let value = text::slice_text(&chars, prefix.len(), chars.len());
            mode = Mode::Editor(parse_app_id(value.as_str())?);
            i = i + 1;
        } else if text::is_number(arg) {
            // A bare numeric argument is treated as an app ID.
            mode = Mode::Editor(parse_app_id(arg)?);
            i = i + 1;
        } else {
            let mut words = "unrecognised argument '".to_owned();
            words.append(arg);
            words.append("'");
            return Err(words);
        }
    }
    assert(all.skip(i as int).len() == 0);
    Ok(Request::Run(Options { mode, screenshot }))
}

/// What the picker hands to a new process opens the editor for that app.
pub proof fn editor_arguments_open_the_editor(app_id: u32)
    requires
        app_id != 0,
    ensures
        requested(picker::editor_words(app_id), Mode::Picker, None) == Ok::<_, Seq<char>>(
            RequestModel::Run { mode: Mode::Editor(app_id), screenshot: None },
        ),
{
    let args = picker::editor_words(app_id);
    reveal_strlit("--app");
    reveal_strlit("--screenshot");
    reveal_strlit("-h");
    reveal_strlit("--help");
    reveal_strlit("-V");
    reveal_strlit("--version");
    assert("--app"@[2] == 'a');
    assert("--help"@[2] == 'h');
    assert("--app"@.len() == 5);
    text::decimal_reads_back(app_id as nat);
    assert(args[0] == "--app"@);
    assert(args[1] == text::decimal(app_id as nat));
    assert(args.skip(2).len() == 0);
    assert(requested(args.skip(2), Mode::Editor(app_id), None) == Ok::<_, Seq<char>>(
        RequestModel::Run { mode: Mode::Editor(app_id), screenshot: None },
    ));
}

/// A bare app ID, `--app=<id>` and `--app <id>` ask for the same.
pub proof fn app_ids_can_be_given_three_ways(app_id: u32)
    requires
        app_id != 0,
    ensures
        ({
            let id = text::decimal(app_id as nat);
            let asked = Ok::<_, Seq<char>>(
                RequestModel::Run { mode: Mode::Editor(app_id), screenshot: None },
            );
            &&& requested(seq![id], Mode::Picker, None) == asked
            &&& requested(seq!["--app="@ + id], Mode::Picker, None) == asked
            &&& requested(seq!["--app"@, id], Mode::Picker, None) == asked
        }),
{
    let id = text::decimal(app_id as nat);
    editor_arguments_open_the_editor(app_id);
    assert(picker::editor_words(app_id) =~= seq!["--app"@, id]);
    text::decimal_reads_back(app_id as nat);
    text::decimal_denotes(app_id as nat);
    reveal_strlit("--app=");
    reveal_strlit("--app");
    reveal_strlit("--screenshot");
    reveal_strlit("-h");
    reveal_strlit("--help");
    reveal_strlit("-V");
    reveal_strlit("--version");
    assert(text::is_digit(id[0]));
    assert("--app"@[0] == '-' && "--screenshot"@[0] == '-' && "-h"@[0] == '-' && "--help"@[0]
        == '-' && "-V"@[0] == '-' && "--version"@[0] == '-' && "--app="@[0] == '-');
    let asked = Ok::<_, Seq<char>>(
        RequestModel::Run { mode: Mode::Editor(app_id), screenshot: None },
    );
    let bare = seq![id];
    assert(bare[0] == id);
    assert(bare.skip(1).len() == 0);
    assert(requested(bare.skip(1), Mode::Editor(app_id), None) == asked);
    assert(!text::occurs_at(id, "--app="@, 0)) by {
        if text::occurs_at(id, "--app="@, 0) {
            assert(id.subrange(0, 6)[0] == '-');
        }
    }
    let joined = "--app="@ + id;
    let single = seq![joined];
    assert(single.skip(1).len() == 0);
    assert(joined.len() > 6);
    assert(joined[5] == '=');
    assert(joined[2] == 'a');
    assert("--screenshot"@[2] == 's');
    assert("--version"@[2] == 'v');
    assert(joined.subrange(0, 6) =~= "--app="@);
    assert(joined.skip(6) =~= id);
    assert(single[0] == joined);
    assert(requested(single.skip(1), Mode::Editor(app_id), None) == asked);
}

/// A value that is more than white space.
pub fn non_empty(value: String) -> (r: Option<String>)
    ensures
        if text::trimmed(value@).len() == 0 {
            r is None
        } else {
            r matches Some(s) && s@ == value@
        },
{
    if text::trim(value.as_str()).as_str().is_empty() {
        None
    } else {
        Some(value)
    }
}

/// The language to show texts in: the client's, or English where it names none.
pub fn shown_language(current: String) -> (r: String)
    ensures
        r@ == if text::trimmed(current@).len() == 0 {
            "english"@
        } else {
            current@
        },
{
    match non_empty(current) {
        Some(language) => language,
        None => "english".to_owned(),
    }
}

/// What the editor's window is called: by the app's name, or by its ID while
/// Steam has cached none.
pub fn editor_title(name: Option<String>, app_id: u32) -> (r: String)
    ensures
        r@ == WINDOW_TITLE@ + " | "@ + match name {
            Some(known) => known@,
            None => text::decimal(app_id as nat),
        },
{
    let mut s = WINDOW_TITLE.to_owned();
    s.append(" | ");
    match name {
        Some(known) => {
            s.append(known.as_str());
        },
        None => {
            text::push_decimal(&mut s, app_id as u64);
        },
    }
    s
}

/// Whether to capture the window now, given how many seconds it has been open.
pub fn screenshot_due(requested_before: bool, seconds: u64) -> (r: bool)
    ensures
        r == (!requested_before && seconds >= SCREENSHOT_DELAY),
{
    !requested_before && seconds >= SCREENSHOT_DELAY
}

proof fn words_differ()
    ensures
        ({
            let words = seq![
                "--screenshot"@,
                "-h"@,
                "--help"@,
                "-V"@,
                "--version"@,
                "--app"@,
                "--app="@,
            ];
            forall|i: int, j: int|
                0 <= i < 7 && 0 <= j < 7 && i != j ==> #[trigger] words[i] != #[trigger] words[j]
        }),
        "--app="@.len() == 6,
        "--app="@[0] == '-',
        "--app"@.len() == 5,
{
    reveal_strlit("--screenshot");
    reveal_strlit("-h");
    reveal_strlit("--help");
    reveal_strlit("-V");
    reveal_strlit("--version");
    reveal_strlit("--app");
    reveal_strlit("--app=");
    assert("--screenshot"@.len() == 12 && "-h"@.len() == 2 && "--help"@.len() == 6 && "-V"@.len()
        == 2 && "--version"@.len() == 9 && "--app"@.len() == 5 && "--app="@.len() == 6);
    assert("-h"@[1] == 'h' && "-V"@[1] == 'V');
    assert("--help"@[2] == 'h' && "--app="@[2] == 'a');
}

/// A screenshot's path is the word behind `--screenshot`, whatever it is; what stands
/// behind it is read on, and the path is kept unless another follows.
pub proof fn any_path_can_be_given(
    path: Seq<char>,
    rest: Seq<Seq<char>>,
    mode: Mode,
    screenshot: Option<Seq<char>>,
)
    ensures
        requested(seq!["--screenshot"@, path] + rest, mode, screenshot) == requested(
            rest,
            mode,
            Some(path),
        ),
        requested(seq!["--screenshot"@], mode, screenshot) is Err,
        requested(Seq::empty(), mode, screenshot) == Ok::<_, Seq<char>>(
            RequestModel::Run { mode, screenshot },
        ),
{
    let args = seq!["--screenshot"@, path] + rest;
    assert(args[0] == "--screenshot"@ && args[1] == path);
    assert(args.skip(2) =~= rest);
}

/// Help and version are given at once, whatever follows.
pub proof fn help_and_version_come_first(
    rest: Seq<Seq<char>>,
    mode: Mode,
    screenshot: Option<Seq<char>>,
)
    ensures
        requested(seq!["-h"@] + rest, mode, screenshot) == Ok::<_, Seq<char>>(RequestModel::Help),
        requested(seq!["--help"@] + rest, mode, screenshot) == Ok::<_, Seq<char>>(
            RequestModel::Help,
        ),
        requested(seq!["-V"@] + rest, mode, screenshot) == Ok::<_, Seq<char>>(
            RequestModel::Version,
        ),
        requested(seq!["--version"@] + rest, mode, screenshot) == Ok::<_, Seq<char>>(
            RequestModel::Version,
        ),
{
    words_differ();
    let words = seq![
        "--screenshot"@,
        "-h"@,
        "--help"@,
        "-V"@,
        "--version"@,
        "--app"@,
        "--app="@,
    ];
    assert(words[0] == "--screenshot"@ && words[1] == "-h"@ && words[2] == "--help"@ && words[3]
        == "-V"@ && words[4] == "--version"@);
    assert((seq!["-h"@] + rest)[0] == "-h"@);
    assert((seq!["--help"@] + rest)[0] == "--help"@);
    assert((seq!["-V"@] + rest)[0] == "-V"@);
    assert((seq!["--version"@] + rest)[0] == "--version"@);
}

/// An app is given by its number behind `--app`, by the same behind `--app=`, or bare; what
/// follows is read on, so that of several apps the last counts. What is no number from 1 on
/// is refused, and the words for that tell of it.
pub proof fn apps_are_given_by_number(
    value: Seq<char>,
    rest: Seq<Seq<char>>,
    mode: Mode,
    screenshot: Option<Seq<char>>,
)
    ensures
        ({
            let behind = requested(seq!["--app"@, value] + rest, mode, screenshot);
            let joined = requested(seq!["--app="@ + value] + rest, mode, screenshot);
            let bare = requested(seq![value] + rest, mode, screenshot);
            match text::read_u32(value) {
                Some(id) if id > 0 => {
                    let read_on = requested(rest, Mode::Editor(id as u32), screenshot);
                    &&& behind == read_on
                    &&& joined == read_on
                    &&& value[0] != '+' ==> bare == read_on
                },
                _ => {
                    &&& behind matches Err(words) && exists|a: Seq<char>, b: Seq<char>|
                        words == #[trigger] (a + value + b)
                    &&& joined matches Err(words) && exists|a: Seq<char>, b: Seq<char>|
                        words == #[trigger] (a + value + b)
                },
            }
        }),
        requested(seq!["--app"@], mode, screenshot) is Err,
{
    words_differ();
    let words = seq![
        "--screenshot"@,
        "-h"@,
        "--help"@,
        "-V"@,
        "--version"@,
        "--app"@,
        "--app="@,
    ];
    assert(words[0] == "--screenshot"@ && words[1] == "-h"@ && words[2] == "--help"@ && words[3]
        == "-V"@ && words[4] == "--version"@ && words[5] == "--app"@);
    let apart = seq!["--app"@, value] + rest;
    assert(apart[0] == "--app"@ && apart[1] == value);
    assert(apart.skip(2) =~= rest);
    let word = "--app="@ + value;
    let whole = seq![word] + rest;
    assert(whole[0] == word);
    assert(whole.skip(1) =~= rest);
    assert(word.subrange(0, 6) =~= "--app="@);
    assert(word.skip(6) =~= value);
    reveal_strlit("--screenshot");
    reveal_strlit("-h");
    reveal_strlit("--help");
    reveal_strlit("-V");
    reveal_strlit("--version");
    reveal_strlit("--app");
    reveal_strlit("--app=");
    assert(word[2] == 'a');
    assert(word.len() >= 6);
    assert("--screenshot"@[2] == 's' && "--help"@[2] == 'h' && "--version"@[2] == 'v');
    assert(app_id_of(value) matches Err(w) ==> w == "'"@ + value + "' is not a valid app ID"@);
    if let Some(id) = text::read_u32(value) {
        if id > 0 && value[0] != '+' {
            let single = seq![value] + rest;
            assert(single[0] == value);
            assert(single.skip(1) =~= rest);
            assert(text::is_digit(value[0]));
            assert("--app"@[0] == '-' && "--screenshot"@[0] == '-' && "-h"@[0] == '-' && "--help"@[0]
                == '-' && "-V"@[0] == '-' && "--version"@[0] == '-' && "--app="@[0] == '-');
            assert(!text::occurs_at(value, "--app="@, 0)) by {
                if text::occurs_at(value, "--app="@, 0) {
                    assert(value.subrange(0, 6)[0] == '-');
                }
            }
            assert(text::is_numeral(value));
        }
    }
}

/// Every other word is refused, and the user is told which it was.
pub proof fn other_words_are_refused(
    word: Seq<char>,
    rest: Seq<Seq<char>>,
    mode: Mode,
    screenshot: Option<Seq<char>>,
)
    requires
        word != "--screenshot"@,
        word != "-h"@,
        word != "--help"@,
        word != "-V"@,
        word != "--version"@,
        word != "--app"@,
        forall|value: Seq<char>| word != #[trigger] ("--app="@ + value),
        word.len() == 0 || exists|i: int|
            0 <= i < word.len() && !('0' <= #[trigger] word[i] && word[i] <= '9'),
    ensures
        requested(seq![word] + rest, mode, screenshot) matches Err(words) && exists|
            a: Seq<char>,
            b: Seq<char>,
        |
            words == #[trigger] (a + word + b),
{
    let args = seq![word] + rest;
    assert(args[0] == word);
    words_differ();
    assert(!text::occurs_at(word, "--app="@, 0)) by {
        if text::occurs_at(word, "--app="@, 0) {
            assert forall|i: int| 0 <= i < 6 implies word[i] == "--app="@[i] by {
                assert(word.subrange(0, 6)[i] == "--app="@[i]);
            }
            assert(word =~= "--app="@ + word.skip(6));
        }
    }
    assert(!text::is_numeral(word)) by {
        if text::is_numeral(word) {
            let i = choose|i: int|
                0 <= i < word.len() && !('0' <= #[trigger] word[i] && word[i] <= '9');
            assert(text::is_digit(word[i]));
        }
    }
    assert(requested(args, mode, screenshot) == Err::<RequestModel, Seq<char>>(
        "unrecognised argument '"@ + word + "'"@,
    ));
}

} // verus!
