//! Working out which games to show.
//!
//! The local Steam installation already knows which apps have achievements,
//! because it caches a schema for each one. That is instant, offline, and every
//! entry is guaranteed to have something worth editing. A remote master list is
//! kept as a fallback, since it also covers owned games that have never been
//! launched and so have no cached schema yet.

use vstd::prelude::*;
use vstd::utf8::encode_utf8;

use crate::fs_path;
use crate::fs_path::FsPath;
use crate::paths;
use crate::split;
use crate::text;

verus! {

/// Where a candidate app ID came from.
#[derive(Debug, Clone, Copy, PartialEq, Eq, Structural)]
pub enum Source {
    /// Steam has a cached achievement schema for it.
    CachedSchema,
    /// It is installed, per an `appmanifest_*.acf`.
    Installed,
    /// It came from the remote master list.
    Remote,
}

/// A game to show in the picker.
#[derive(Debug, PartialEq)]
pub struct GameEntry {
    pub app_id: u32,
    pub name: String,
    pub capsule_url: Option<String>,
    pub kind: String,
    pub source: Source,
    pub has_schema: bool,
}

/// What a [`GameEntry`] says.
pub struct GameModel {
    pub app_id: u32,
    pub name: Seq<char>,
    pub capsule_url: Option<Seq<char>>,
    pub kind: Seq<char>,
    pub source: Source,
    pub has_schema: bool,
}

impl View for GameEntry {
    type V = GameModel;

    open spec fn view(&self) -> GameModel {
        GameModel {
            app_id: self.app_id,
            name: self.name@,
            capsule_url: text::optional(self.capsule_url),
            kind: self.kind@,
            source: self.source,
            has_schema: self.has_schema,
        }
    }
}

impl Clone for GameEntry {
    fn clone(&self) -> (r: Self)
        ensures
            r@ == self@,
    {
        GameEntry {
            app_id: self.app_id,
            name: self.name.clone(),
            capsule_url: match &self.capsule_url {
                Some(url) => Some(url.clone()),
                None => None,
            },
            kind: self.kind.clone(),
            source: self.source,
            has_schema: self.has_schema,
        }
    }
}

/// What a list of games says.
pub open spec fn game_models(list: Seq<GameEntry>) -> Seq<GameModel> {
    list.map_values(|g: GameEntry| g@)
}

/// An entry from the remote master list.
#[derive(Debug, PartialEq)]
pub struct RemoteApp {
    pub app_id: u32,
    pub kind: String,
}

/// What a [`RemoteApp`] says.
pub struct RemoteModel {
    pub app_id: u32,
    pub kind: Seq<char>,
}

impl View for RemoteApp {
    type V = RemoteModel;

    open spec fn view(&self) -> RemoteModel {
        RemoteModel { app_id: self.app_id, kind: self.kind@ }
    }
}

impl Clone for RemoteApp {
    fn clone(&self) -> (r: Self)
        ensures
            r@ == self@,
    {
        RemoteApp { app_id: self.app_id, kind: self.kind.clone() }
    }
}

/// What a list of remote entries says.
pub open spec fn remote_models(list: Seq<RemoteApp>) -> Seq<RemoteModel> {
    list.map_values(|a: RemoteApp| a@)
}

/// What lists of file names say.
pub open spec fn name_lists(folders: Seq<Vec<String>>) -> Seq<Seq<Seq<char>>> {
    folders.map_values(|names: Vec<String>| text::texts_of(names@))
}

/// The apps that are installed in some library folders, of the names of the
/// files in each.
pub open spec fn installed_ids(folders: Seq<Seq<Seq<char>>>) -> Set<u32>
    decreases folders.len(),
{
    if folders.len() == 0 {
        Set::empty()
    } else {
        installed_ids(folders.drop_last()) + paths::ids_in_names(
            folders.last(),
            "appmanifest_"@,
            ".acf"@,
        )
    }
}

/// App IDs worth checking, gathered without any network access.
///
/// Combines apps with a cached achievement schema and apps that are merely
/// installed. The second set catches a game installed but never launched,
/// where opening the editor will at least explain why it is empty.
///
/// `cached` are the names of the files in the schema cache, `folders` those in
/// each library folder. An `appmanifest_<id>.acf` carries the ID in its name, so
/// nothing inside the file needs parsing.
pub fn local_candidates(cached: &Vec<String>, folders: &Vec<Vec<String>>) -> (r: Vec<u32>)
    ensures
        paths::ascending(r@),
        r@.to_set() == paths::ids_in_names(
            text::texts_of(cached@),
            "UserGameStatsSchema_"@,
            ".bin"@,
        ) + installed_ids(name_lists(folders@)),
{
    let mut ids: Vec<u32> = Vec::new();
    paths::insert_ids(&mut ids, cached, "UserGameStatsSchema_", ".bin");
    let ghost known = paths::ids_in_names(
        text::texts_of(cached@),
        "UserGameStatsSchema_"@,
        ".bin"@,
    );
    let ghost all = name_lists(folders@);
    assert(ids@.to_set() =~= known + installed_ids(all.take(0)));
    for i in 0..folders.len()
        invariant
            paths::ascending(ids@),
            all == name_lists(folders@),
            ids@.to_set() == known + installed_ids(all.take(i as int)),
    {
        assert(all.take(i + 1).drop_last() == all.take(i as int));
        paths::insert_ids(&mut ids, &folders[i], "appmanifest_", ".acf");
        assert(ids@.to_set() =~= known + installed_ids(all.take(i + 1)));
    }
    assert(all.take(all.len() as int) == all);
    ids
}

/// A line without the carriage return it ends in, if it does.
pub open spec fn without_return(line: Seq<char>) -> Seq<char> {
    if line.len() > 0 && line.last() == '\r' {
        line.drop_last()
    } else {
        line
    }
}

/// The lines of a text. A line ends in a line feed, which a carriage return may
/// come before, or where the text ends.
pub open spec fn lines_of(s: Seq<char>) -> Seq<Seq<char>> {
    let parts = split::pieces(s, '\n');
    let ended = parts.drop_last().map_values(|line: Seq<char>| without_return(line));
    if parts.last().len() == 0 {
        ended
    } else {
        ended.push(parts.last())
    }
}

/// The value on a line of text VDF, where the line holds one under that key: the
/// first and the second of the stretches between its quotation marks.
pub open spec fn value_on_line(line: Seq<char>, key: Seq<char>) -> Option<Seq<char>> {
    let parts = split::pieces(line, '"');
    if parts.len() > 3 && text::same_ignoring_ascii_case(parts[1], key) {
        Some(parts[3])
    } else {
        None
    }
}

/// The values under a key on some lines, in order.
pub open spec fn values_on_lines(lines: Seq<Seq<char>>, key: Seq<char>) -> Seq<Seq<char>>
    decreases lines.len(),
{
    if lines.len() == 0 {
        Seq::empty()
    } else {
        let before = values_on_lines(lines.drop_last(), key);
        match value_on_line(lines.last(), key) {
            Some(value) => before.push(value),
            None => before,
        }
    }
}

/// The lines of a text.
fn lines(s: &str) -> (r: Vec<Vec<char>>)
    ensures
        split::views(r@) == lines_of(s@),
{
    let chars = text::chars_of(s);
    let mut parts = split::split_chars(&chars, '\n');
    let ghost given = split::views(parts@);
    proof {
        split::pieces_hold_no_separator(s@, '\n');
    }
    let last = match parts.pop() {
        Some(last) => last,
        None => {
            return Vec::new();
        },
    };
    assert(split::views(parts@) == given.drop_last());
    let ghost open_lines = split::views(parts@);
    let mut r: Vec<Vec<char>> = Vec::new();
    for i in 0..parts.len()
        invariant
            open_lines == split::views(parts@),
            r@.len() == i,
            forall|k: int| 0 <= k < i ==> (#[trigger] r@[k])@ == without_return(open_lines[k]),
    {
        let part = &parts[i];
        let n = part.len();
        assert(open_lines[i as int] == part@);
        let mut line = vstd::slice::slice_to_vec(part.as_slice());
        if n > 0 && part[n - 1] == '\r' {
            line.truncate(n - 1);
            assert(line@ =~= part@.drop_last());
        }
        r.push(line);
    }
    let ghost ended = open_lines.map_values(|line: Seq<char>| without_return(line));
    assert(split::views(r@) =~= ended);
    if last.len() > 0 {
        r.push(last);
        assert(split::views(r@) =~= ended.push(last@));
    }
    r
}

/// Values of `"<key>"  "<value>"` pairs in a text VDF document.
pub fn quoted_values_for_key(s: &str, key: &str) -> (r: Vec<String>)
    ensures
        text::texts_of(r@) == values_on_lines(lines_of(s@), key@),
{
    let all = lines(s);
    let ghost list = lines_of(s@);
    let mut out: Vec<String> = Vec::new();
    assert(text::texts_of(out@) == values_on_lines(list.take(0), key@));
    for i in 0..all.len()
        invariant
            list == split::views(all@),
            text::texts_of(out@) == values_on_lines(list.take(i as int), key@),
    {
        let ghost was = text::texts_of(out@);
        let parts = split::split_chars(&all[i], '"');
        proof {
            assert(list.take(i + 1).drop_last() == list.take(i as int));
            assert(list.take(i + 1).last() == all@[i as int]@);
        }
        let ghost pieces = split::views(parts@);
        if parts.len() > 3 {
            assert(pieces[1] == parts@[1]@ && pieces[3] == parts@[3]@);
            let found_key = text::string_of(&parts[1]);
            if text::eq_ignore_ascii_case(found_key.as_str(), key) {
                let value = text::string_of(&parts[3]);
                out.push(value);
                assert(text::texts_of(out@) == was.push(value@));
            }
        }
    }
    assert(list.take(list.len() as int) == list);
    out
}

/// A value that can stand in quotation marks on a line.
pub open spec fn plain_value(value: Seq<char>) -> bool {
    !value.contains('"') && !value.contains('\n') && !value.contains('\r')
}

/// A line of text VDF that gives a key a value.
pub open spec fn pair_line(key: Seq<char>, value: Seq<char>) -> Seq<char> {
    seq!['"'] + key + seq!['"', '\t', '\t', '"'] + value + seq!['"']
}

/// Lines of text VDF that give a key one value after another.
pub open spec fn pairs_text(key: Seq<char>, values: Seq<Seq<char>>) -> Seq<char>
    decreases values.len(),
{
    if values.len() == 0 {
        Seq::empty()
    } else {
        pairs_text(key, values.drop_last()) + pair_line(key, values.last()) + seq!['\n']
    }
}

/// The values that a text VDF document gives a key are read back as they were
/// written.
pub proof fn written_pairs_read_back(key: Seq<char>, values: Seq<Seq<char>>)
    requires
        plain_value(key),
        forall|i: int| 0 <= i < values.len() ==> plain_value(#[trigger] values[i]),
    ensures
        values_on_lines(lines_of(pairs_text(key, values)), key) == values,
    decreases values.len(),
{
    let whole = pairs_text(key, values);
    if values.len() > 0 {
        let before = pairs_text(key, values.drop_last());
        let line = pair_line(key, values.last());
        assert forall|i: int| 0 <= i < values.drop_last().len() implies plain_value(
            #[trigger] values.drop_last()[i],
        ) by {
            assert(values.drop_last()[i] == values[i]);
        }
        written_pairs_read_back(key, values.drop_last());
        assert(plain_value(values[values.len() - 1]));
        pairs_end_a_line(key, values.drop_last());
        assert(!line.contains('\n')) by {
            pair_line_is_one_line(key, values.last());
        }
        split::pieces_of_a_sum(before, line, '\n');
        let joined = before + line;
        assert(whole == joined.push('\n'));
        assert(whole.drop_last() == joined);
        let given = split::pieces(before, '\n');
        let parts = split::pieces(whole, '\n');
        assert(parts == given.drop_last().push(line).push(Seq::empty()));
        assert(without_return(line) == line);
        assert(lines_of(before) == given.drop_last().map_values(
            |line: Seq<char>| without_return(line),
        ));
        assert(lines_of(whole) == lines_of(before).push(line));
        assert(lines_of(whole).drop_last() == lines_of(before));
        pair_line_holds_its_value(key, values.last());
        assert(values_on_lines(lines_of(whole), key) == values.drop_last().push(values.last()));
        assert(values.drop_last().push(values.last()) == values);
    } else {
        assert(split::pieces(whole, '\n') == seq![Seq::<char>::empty()]);
        assert(lines_of(whole) == Seq::<Seq<char>>::empty());
        assert(values_on_lines(lines_of(whole), key) == values);
    }
}

proof fn pairs_end_a_line(key: Seq<char>, values: Seq<Seq<char>>)
    ensures
        split::pieces(pairs_text(key, values), '\n').len() > 0,
        split::pieces(pairs_text(key, values), '\n').last() == Seq::<char>::empty(),
{
    split::pieces_hold_no_separator(pairs_text(key, values), '\n');
    if values.len() > 0 {
        assert(pairs_text(key, values).last() == '\n');
    }
}

proof fn pair_line_is_one_line(key: Seq<char>, value: Seq<char>)
    requires
        plain_value(key),
        plain_value(value),
    ensures
        !pair_line(key, value).contains('\n'),
        pair_line(key, value).len() > 0,
        pair_line(key, value).last() == '"',
{
    let line = pair_line(key, value);
    let k = key.len() as int;
    assert forall|i: int| 0 <= i < line.len() implies line[i] != '\n' by {
        if 1 <= i < 1 + k {
            assert(line[i] == key[i - 1]);
        } else if 5 + k <= i < line.len() - 1 {
            assert(line[i] == value[i - 5 - k]);
        }
    }
}

proof fn pair_line_holds_its_value(key: Seq<char>, value: Seq<char>)
    requires
        plain_value(key),
        plain_value(value),
    ensures
        value_on_line(pair_line(key, value), key) == Some(value),
{
    let none = Seq::<char>::empty();
    let mark = '"';
    let a = seq![mark];
    assert(a.drop_last() == none);
    assert(split::pieces(none, mark) == seq![none]);
    assert(split::pieces(a, mark) == seq![none, none]);
    split::pieces_of_a_sum(a, key, mark);
    let b = a + key;
    assert(split::pieces(b, mark) == seq![none, key]);
    let c = b.push(mark);
    assert(c.drop_last() == b);
    assert(split::pieces(c, mark) == seq![none, key, none]);
    let gap = seq!['\t', '\t'];
    assert(!gap.contains(mark));
    split::pieces_of_a_sum(c, gap, mark);
    let d = c + gap;
    assert(split::pieces(d, mark) == seq![none, key, gap]);
    let e = d.push(mark);
    assert(e.drop_last() == d);
    assert(split::pieces(e, mark) == seq![none, key, gap, none]);
    split::pieces_of_a_sum(e, value, mark);
    let f = e + value;
    assert(split::pieces(f, mark) == seq![none, key, gap, value]);
    let g = f.push(mark);
    assert(g.drop_last() == f);
    assert(split::pieces(g, mark) == seq![none, key, gap, value, none]);
    assert(pair_line(key, value) == g);
}

/// The directory that holds a library's apps.
pub open spec fn steamapps_in(library: Seq<u8>) -> Seq<u8> {
    fs_path::joined(library, encode_utf8("steamapps"@))
}

/// Where `libraryfolders.vdf` lies under a Steam root.
pub fn library_manifest(root: &FsPath) -> (r: FsPath)
    ensures
        r@ == fs_path::joined(steamapps_in(root@), encode_utf8("libraryfolders.vdf"@)),
{
    root.join("steamapps").join("libraryfolders.vdf")
}

/// The library directories that a `libraryfolders.vdf` names, in order.
///
/// It is *text* VDF rather than the binary format the schema files use, so
/// rather than a second parser there is a scan for the quoted values that follow
/// each `"path"` key. That is all that is needed from it.
pub fn manifest_folders(manifest: &str) -> (r: Vec<FsPath>)
    ensures
        fs_path::spelled(r@) == values_on_lines(lines_of(manifest@), "path"@).map_values(
            |value: Seq<char>| steamapps_in(encode_utf8(value)),
        ),
{
    let values = quoted_values_for_key(manifest, "path");
    let ghost list = text::texts_of(values@);
    let mut r: Vec<FsPath> = Vec::new();
    for i in 0..values.len()
        invariant
            list == text::texts_of(values@),
            r@.len() == i,
            forall|k: int|
                0 <= k < i ==> (#[trigger] r@[k])@ == steamapps_in(encode_utf8(list[k])),
    {
        r.push(FsPath::from_text(values[i].as_str()).join("steamapps"));
    }
    assert(fs_path::spelled(r@) =~= list.map_values(
        |value: Seq<char>| steamapps_in(encode_utf8(value)),
    ));
    r
}

/// The path is spelled among some others.
pub open spec fn listed_path(list: Seq<Seq<u8>>, path: Seq<u8>) -> bool {
    exists|i: int| 0 <= i < list.len() && fs_path::same_path(#[trigger] list[i], path)
}

/// Every library directory: the one under the root, then those candidates that
/// are directories and were not listed before.
pub open spec fn folders_of(root: Seq<u8>, candidates: Seq<Seq<u8>>, are_dirs: Seq<bool>) -> Seq<
    Seq<u8>,
>
    decreases candidates.len(),
{
    if candidates.len() == 0 {
        seq![steamapps_in(root)]
    } else {
        let before = folders_of(root, candidates.drop_last(), are_dirs);
        let k = candidates.len() - 1;
        if k < are_dirs.len() && are_dirs[k] && !listed_path(before, candidates.last()) {
            before.push(candidates.last())
        } else {
            before
        }
    }
}

/// Every Steam library directory, including those on other drives. `are_dirs`
/// says of each of the candidates, in order, whether it is a directory.
pub fn library_folders(root: &FsPath, candidates: &Vec<FsPath>, are_dirs: &Vec<bool>) -> (r: Vec<
    FsPath,
>)
    ensures
        fs_path::spelled(r@) == folders_of(root@, fs_path::spelled(candidates@), are_dirs@),
{
    let ghost all = fs_path::spelled(candidates@);
    let mut folders: Vec<FsPath> = Vec::new();
    folders.push(root.join("steamapps"));
    assert(fs_path::spelled(folders@) =~= folders_of(root@, all.take(0), are_dirs@));
    for i in 0..candidates.len()
        invariant
            all == fs_path::spelled(candidates@),
            fs_path::spelled(folders@) == folders_of(root@, all.take(i as int), are_dirs@),
    {
        let ghost was = fs_path::spelled(folders@);
        let candidate = &candidates[i];
        proof {
            assert(all.take(i + 1).drop_last() == all.take(i as int));
            assert(all.take(i + 1).last() == candidate@);
        }
        let mut known = false;
        for k in 0..folders.len()
            invariant
                was == fs_path::spelled(folders@),
                known <==> exists|m: int|
                    0 <= m < k && fs_path::same_path(#[trigger] was[m], candidate@),
        {
            if folders[k].same_as(candidate) {
                assert(fs_path::same_path(was[k as int], candidate@));
                known = true;
            }
        }
        if i < are_dirs.len() && are_dirs[i] && !known {
            folders.push(candidate.clone());
            assert(fs_path::spelled(folders@) =~= was.push(candidate@));
        }
    }
    assert(all.take(all.len() as int) == all);
    folders
}

/// A character that can follow the name of a tag.
pub open spec fn ends_tag_name(c: char) -> bool {
    c == '>' || c == ' ' || c == '\t' || c == '\n' || c == '\r' || c == '/'
}

/// The value of an attribute among the attributes of a tag.
pub open spec fn attribute_in(attributes: Seq<char>, name: Seq<char>) -> Option<Seq<char>> {
    let key = name + "=\""@;
    match text::first_from(attributes, key, 0) {
        None => None,
        Some(i) => match text::first_from(attributes, "\""@, (i + key.len()) as int) {
            None => None,
            Some(end) => Some(attributes.subrange((i + key.len()) as int, end)),
        },
    }
}

/// The entries `<game type="...">12345</game>` of a document from a position
/// on. Those whose body is no app ID are passed over.
///
/// The document's root element is `<games>`, which shares the beginning of the
/// tag; what follows the name tells them apart.
pub open spec fn games_from(xml: Seq<char>, from: int) -> Seq<RemoteModel>
    decreases xml.len() - from,
{
    match text::first_from(xml, "<game"@, from) {
        None => Seq::empty(),
        Some(start) => {
            let after = start + 5;
            if after > xml.len() || start < from {
                Seq::empty()
            } else if after == xml.len() || !ends_tag_name(xml[after]) {
                games_from(xml, after)
            } else {
                match text::first_from(xml, ">"@, after) {
                    None => Seq::empty(),
                    Some(open_end) => match text::first_from(xml, "</game>"@, open_end + 1) {
                        None => Seq::empty(),
                        Some(close) => {
                            let end = close + 7;
                            if open_end < after || close <= open_end || end > xml.len() {
                                Seq::empty()
                            } else {
                                let rest = games_from(xml, end);
                                let attributes = xml.subrange(after, open_end);
                                let body = text::trimmed(xml.subrange(open_end + 1, close));
                                match text::read_u32(body) {
                                    None => rest,
                                    Some(id) => seq![
                                        RemoteModel {
                                            app_id: id as u32,
                                            kind: match attribute_in(attributes, "type"@) {
                                                Some(kind) => kind,
                                                None => "normal"@,
                                            },
                                        },
                                    ] + rest,
                                }
                            }
                        },
                    },
                }
            }
        },
    }
}

/// The value of an attribute among the attributes of a tag.
fn attribute_value(attributes: &Vec<char>, name: &str) -> (r: Option<String>)
    ensures
        match attribute_in(attributes@, name@) {
            Some(value) => r matches Some(s) && s@ == value,
            None => r is None,
        },
{
    let mut key = name.to_owned();
    key.append("=\"");
    let key_chars = text::chars_of(key.as_str());
    let at = text::find_first(attributes, key.as_str(), 0)?;
    assert(at + key_chars.len() <= attributes.len());
    let start = at + key_chars.len();
    let end = text::find_first(attributes, "\"", start)?;
    Some(text::slice_text(attributes, start, end))
}

/// Extract `<game type="...">12345</game>` entries.
///
/// The document is a flat list of one element type, so a scan is clearer and
/// lighter than an XML parser.
pub fn parse_games_xml(xml: &str) -> (r: Vec<RemoteApp>)
    ensures
        remote_models(r@) == games_from(xml@, 0),
{
    proof {
        reveal_strlit("<game");
        reveal_strlit("</game>");
        reveal_strlit(">");
    }
    let chars = text::chars_of(xml);
    let mut out: Vec<RemoteApp> = Vec::new();
    let mut from: usize = 0;
    assert(remote_models(out@) + games_from(xml@, 0) == games_from(xml@, 0));
    loop
        invariant
            chars@ == xml@,
            from <= chars@.len(),
            "<game"@.len() == 5,
            "</game>"@.len() == 7,
            ">"@.len() == 1,
            remote_models(out@) + games_from(xml@, from as int) == games_from(xml@, 0),
        decreases chars@.len() - from,
    {
        let ghost done = remote_models(out@);
        assert(done + Seq::<RemoteModel>::empty() == done);
        let start = match text::find_first(&chars, "<game", from) {
            Some(start) => start,
            None => {
                return out;
            },
        };
        assert(start + 5 <= chars.len());
        let after = start + 5;
        // Require a real tag boundary so the root is not mistaken for an
        // entry, which would consume the first game along with it.
        if after == chars.len() {
            from = after;
            continue;
        }
        let c = chars[after];
        let boundary = c == '>' || c == ' ' || c == '\t' || c == '\n' || c == '\r' || c == '/';
        if !boundary {
            from = after;
            continue;
        }
        let open_end = match text::find_first(&chars, ">", after) {
            Some(open_end) => open_end,
            None => {
                return out;
            },
        };
        let close = match text::find_first(&chars, "</game>", open_end + 1) {
            Some(close) => close,
            None => {
                return out;
            },
        };
        let body = text::trim(text::slice_text(&chars, open_end + 1, close).as_str());
        assert(close + 7 <= chars.len());
        let end = close + 7;
        if let Some(app_id) = text::parse_u32(body.as_str()) {
            let attributes = text::chars_of(text::slice_text(&chars, after, open_end).as_str());
            let kind = match attribute_value(&attributes, "type") {
                Some(kind) => kind,
                None => "normal".to_owned(),
            };
            let app = RemoteApp { app_id, kind };
            out.push(app);
            proof {
                assert(remote_models(out@) == done.push(app@));
                let rest = games_from(xml@, end as int);
                assert(games_from(xml@, from as int) == seq![app@] + rest);
                assert(done + (seq![app@] + rest) == done.push(app@) + rest);
            }
        }
        from = end;
    }
}

/// What an owned app is called: its name, or its ID while Steam has cached none.
pub open spec fn shown_name(app_id: u32, name: Option<Seq<char>>) -> Seq<char> {
    match name {
        Some(known) => known,
        None => "App "@ + text::decimal(app_id as nat),
    }
}

/// Build a display entry for an owned app.
///
/// `name` may be absent when Steam has not cached metadata yet; the app ID
/// stands in until an `AppDataChanged` callback fills it.
pub fn describe(
    app_id: u32,
    kind: &str,
    source: Source,
    name: Option<String>,
    capsule_url: Option<String>,
    has_schema: bool,
) -> (r: GameEntry)
    ensures
        r@ == (GameModel {
            app_id,
            name: shown_name(app_id, text::optional(name)),
            capsule_url: text::optional(capsule_url),
            kind: kind@,
            source,
            has_schema,
        }),
{
    let shown = match name {
        Some(known) => known,
        None => {
            let mut s = "App ".to_owned();
            text::push_decimal(&mut s, app_id as u64);
            s
        },
    };
    GameEntry { app_id, name: shown, capsule_url, kind: kind.to_owned(), source, has_schema }
}

/// Where a store asset lies.
pub open spec fn store_url(app_id: u32, file: Seq<char>) -> Seq<char> {
    "https://shared.cloudflare.steamstatic.com/store_item_assets/steam/apps/"@ + text::decimal(
        app_id as nat,
    ) + "/"@ + file
}

/// Where a community asset lies.
pub open spec fn community_url(app_id: u32, file: Seq<char>) -> Seq<char> {
    "https://cdn.steamstatic.com/steamcommunity/public/images/apps/"@ + text::decimal(
        app_id as nat,
    ) + "/"@ + file
}

/// Capsules live under the store CDN.
pub fn store_asset_url(app_id: u32, file: &str) -> (r: String)
    ensures
        r@ == store_url(app_id, file@),
{
    let mut s = "https://shared.cloudflare.steamstatic.com/store_item_assets/steam/apps/".to_owned();
    text::push_decimal(&mut s, app_id as u64);
    s.append("/");
    s.append(file);
    s
}

/// Achievement icons and legacy logos live under the community CDN.
pub fn community_asset_url(app_id: u32, file: &str) -> (r: String)
    ensures
        r@ == community_url(app_id, file@),
{
    let mut s = "https://cdn.steamstatic.com/steamcommunity/public/images/apps/".to_owned();
    text::push_decimal(&mut s, app_id as u64);
    s.append("/");
    s.append(file);
    s
}

/// The app data to ask for in search of a game's capsule, most preferred first:
/// the localized small capsule, the English one, and the legacy community logo.
pub open spec fn capsule_keys(language: Seq<char>) -> Seq<Seq<char>> {
    (if language.len() > 0 {
        seq!["small_capsule/"@ + language]
    } else {
        Seq::empty()
    }) + (if !text::same_ignoring_ascii_case(language, "english"@) {
        seq!["small_capsule/english"@]
    } else {
        Seq::empty()
    }) + seq!["logo"@]
}

/// The capsule behind an answer to one of the keys. The last of them is the
/// logo.
pub open spec fn capsule_behind(app_id: u32, keys: Seq<Seq<char>>, i: int, value: Seq<char>) -> Seq<
    char,
> {
    if i == keys.len() - 1 {
        community_url(app_id, value + ".jpg"@)
    } else {
        store_url(app_id, value)
    }
}

/// What to do next in search of a game's capsule.
#[derive(Debug, PartialEq, Eq)]
pub enum CapsuleStep {
    /// Ask Steam for this app data.
    Ask { key: String },
    /// The search is over.
    Done { url: Option<String> },
}

/// What a [`CapsuleStep`] says.
pub enum CapsuleModel {
    Ask { key: Seq<char> },
    Done { url: Option<Seq<char>> },
}

impl View for CapsuleStep {
    type V = CapsuleModel;

    open spec fn view(&self) -> CapsuleModel {
        match *self {
            CapsuleStep::Ask { key } => CapsuleModel::Ask { key: key@ },
            CapsuleStep::Done { url } => CapsuleModel::Done { url: text::optional(url) },
        }
    }
}

/// What a list of answers says.
pub open spec fn answer_views(answers: Seq<Option<String>>) -> Seq<Option<Seq<char>>> {
    answers.map_values(|a: Option<String>| text::optional(a))
}

/// What follows in the search from the answers so far, from the key at `i` on.
pub open spec fn capsule_search(
    app_id: u32,
    keys: Seq<Seq<char>>,
    answers: Seq<Option<Seq<char>>>,
    i: int,
) -> CapsuleModel
    decreases keys.len() - i,
{
    if i < 0 || i >= keys.len() {
        CapsuleModel::Done { url: None }
    } else if i >= answers.len() {
        CapsuleModel::Ask { key: keys[i] }
    } else {
        match answers[i] {
            Some(value) => CapsuleModel::Done {
                url: Some(capsule_behind(app_id, keys, i, value)),
            },
            None => capsule_search(app_id, keys, answers, i + 1),
        }
    }
}

fn capsule_key_list(language: &str) -> (r: Vec<String>)
    ensures
        text::texts_of(r@) == capsule_keys(language@),
        r@.len() <= 3,
{
    let mut keys: Vec<String> = Vec::new();
    if !language.is_empty() {
        let mut key = "small_capsule/".to_owned();
        key.append(language);
        keys.push(key);
    }
    if !text::eq_ignore_ascii_case(language, "english") {
        keys.push("small_capsule/english".to_owned());
    }
    keys.push("logo".to_owned());
    assert(text::texts_of(keys@) =~= capsule_keys(language@));
    keys
}

/// Best available capsule art for a game, given Steam's answers so far: prefer
/// the localized small capsule, fall back to English, then to the legacy
/// community `logo`.
pub fn capsule_url(app_id: u32, language: &str, answers: &Vec<Option<String>>) -> (r: CapsuleStep)
    ensures
        r@ == capsule_search(app_id, capsule_keys(language@), answer_views(answers@), 0),
{
    let keys = capsule_key_list(language);
    let ghost list = capsule_keys(language@);
    let ghost given = answer_views(answers@);
    let mut i: usize = 0;
    while i < keys.len()
        invariant
            i <= keys@.len(),
            keys@.len() <= 3,
            text::texts_of(keys@) == list,
            given == answer_views(answers@),
            list == capsule_keys(language@),
            capsule_search(app_id, list, given, 0) == capsule_search(
                app_id,
                list,
                given,
                i as int,
            ),
        decreases keys@.len() - i,
    {
        assert(list[i as int] == keys@[i as int]@);
        if i >= answers.len() {
            return CapsuleStep::Ask { key: keys[i].clone() };
        }
        assert(given[i as int] == text::optional(answers@[i as int]));
        if let Some(value) = &answers[i] {
            let url = if i == keys.len() - 1 {
                let mut file = value.clone();
                file.append(".jpg");
                community_asset_url(app_id, file.as_str())
            } else {
                store_asset_url(app_id, value.as_str())
            };
            return CapsuleStep::Done { url: Some(url) };
        }
        i = i + 1;
    }
    CapsuleStep::Done { url: None }
}

/// The entry of one game as a master list writes it.
pub open spec fn entry_text(app: RemoteModel) -> Seq<char> {
    "<game type=\""@ + app.kind + "\">"@ + text::decimal(app.app_id as nat) + "</game>"@
}

/// The entries of some games, one behind the other.
pub open spec fn entries_text(apps: Seq<RemoteModel>) -> Seq<char>
    decreases apps.len(),
{
    if apps.len() == 0 {
        Seq::empty()
    } else {
        entry_text(apps[0]) + entries_text(apps.skip(1))
    }
}

/// A kind of game that can stand in an attribute.
pub open spec fn plain_kind(kind: Seq<char>) -> bool {
    !kind.contains('"') && !kind.contains('>')
}

proof fn entry_reads(pre: Seq<char>, app: RemoteModel, post: Seq<char>)
    requires
        plain_kind(app.kind),
    ensures
        ({
            let xml = pre + entry_text(app) + post;
            games_from(xml, pre.len() as int) == seq![app] + games_from(
                xml,
                (pre.len() + entry_text(app).len()) as int,
            )
        }),
{
    reveal_strlit("<game");
    reveal_strlit("<game type=\"");
    reveal_strlit("\">");
    reveal_strlit(">");
    reveal_strlit("\"");
    reveal_strlit("=\"");
    reveal_strlit("type");
    reveal_strlit("</game>");
    let digits = text::decimal(app.app_id as nat);
    let open_tag = "<game type=\""@;
    let gap = "\">"@;
    let closing = "</game>"@;
    let xml = pre + entry_text(app) + post;
    let start = pre.len() as int;
    let after = start + 5;
    let quote = start + 12 + app.kind.len();
    let open_end = quote + 1;
    let body = open_end + 1;
    let close = body + digits.len();
    assert(forall|i: int| 0 <= i < 12 ==> xml[start + i] == open_tag[i]);
    assert(forall|i: int|
        0 <= i < app.kind.len() ==> xml[start + 12 + i] == #[trigger] app.kind[i]);
    assert(xml[quote] == gap[0] && xml[open_end] == gap[1]);
    assert(forall|i: int| 0 <= i < digits.len() ==> xml[body + i] == #[trigger] digits[i]);
    assert(forall|i: int| 0 <= i < 7 ==> xml[close + i] == closing[i]);
    // The tag stands right here.
    assert(xml.subrange(start, start + 5) =~= "<game"@);
    text::first_from_is(xml, "<game"@, start, start);
    assert(xml[after] == ' ');
    // It ends behind the attribute.
    assert forall|j: int| after <= j < open_end implies !text::occurs_at(xml, ">"@, j) by {
        if text::occurs_at(xml, ">"@, j) {
            assert(xml.subrange(j, j + 1)[0] == '>');
            if j < start + 12 {
                assert(xml[j] == open_tag[j - start]);
            } else if j < quote {
                assert(xml[j] == app.kind[j - start - 12]);
            }
        }
    }
    assert(xml.subrange(open_end, open_end + 1) =~= ">"@);
    text::first_from_is(xml, ">"@, after, open_end);
    // The body is the number.
    text::decimal_denotes(app.app_id as nat);
    assert forall|j: int| body <= j < close implies !text::occurs_at(xml, closing, j) by {
        if text::occurs_at(xml, closing, j) {
            assert(xml.subrange(j, j + 7)[0] == '<');
            assert(text::is_digit(digits[j - body]));
        }
    }
    assert(xml.subrange(close, close + 7) =~= closing);
    text::first_from_is(xml, closing, body, close);
    assert(xml.subrange(body, close) =~= digits);
    text::signed_decimal_is_trim(app.app_id as int);
    text::decimal_reads_back(app.app_id as nat);
    // The attribute is the kind.
    let attributes = xml.subrange(after, open_end);
    let key = "type"@ + "=\""@;
    assert(attributes.subrange(1, 7) =~= key);
    assert forall|j: int| 0 <= j < 1 implies !text::occurs_at(attributes, key, j) by {
        if text::occurs_at(attributes, key, j) {
            assert(attributes.subrange(j, j + 6)[0] == 't');
            assert(attributes[0] == ' ');
        }
    }
    text::first_from_is(attributes, key, 0, 1);
    let end = 7 + app.kind.len() as int;
    assert forall|j: int| 7 <= j < end implies !text::occurs_at(attributes, "\""@, j) by {
        if text::occurs_at(attributes, "\""@, j) {
            assert(attributes.subrange(j, j + 1)[0] == '"');
            assert(attributes[j] == app.kind[j - 7]);
        }
    }
    assert(attributes.subrange(end, end + 1) =~= "\""@);
    text::first_from_is(attributes, "\""@, 7, end);
    assert(attributes.subrange(7, end) =~= app.kind);
    assert(close + 7 == pre.len() + entry_text(app).len());
}

proof fn entries_read(pre: Seq<char>, apps: Seq<RemoteModel>)
    requires
        forall|i: int| 0 <= i < apps.len() ==> plain_kind((#[trigger] apps[i]).kind),
    ensures
        games_from(pre + entries_text(apps) + "</games>"@, pre.len() as int) == apps,
    decreases apps.len(),
{
    let xml = pre + entries_text(apps) + "</games>"@;
    if apps.len() == 0 {
        reveal_strlit("</games>");
        reveal_strlit("<game");
        let tail = "</games>"@;
        assert(xml =~= pre + tail);
        assert forall|j: int| pre.len() <= j implies !text::occurs_at(xml, "<game"@, j) by {
            if text::occurs_at(xml, "<game"@, j) {
                assert(xml.subrange(j, j + 5)[0] == '<');
                assert(xml.subrange(j, j + 5)[1] == 'g');
                assert(xml[j] == tail[j - pre.len()]);
                assert(xml[j + 1] == tail[j + 1 - pre.len()]);
            }
        }
        text::first_from_is_none(xml, "<game"@, pre.len() as int);
        assert(apps =~= Seq::<RemoteModel>::empty());
    } else {
        let rest = apps.skip(1);
        let post = entries_text(rest) + "</games>"@;
        let longer = pre + entry_text(apps[0]);
        entry_reads(pre, apps[0], post);
        assert(xml =~= pre + entry_text(apps[0]) + post);
        assert(xml =~= longer + entries_text(rest) + "</games>"@);
        entries_read(longer, rest);
        assert(seq![apps[0]] + rest =~= apps);
    }
}

/// A master list is read back as it was written.
pub proof fn written_games_read_back(apps: Seq<RemoteModel>)
    requires
        forall|i: int| 0 <= i < apps.len() ==> plain_kind((#[trigger] apps[i]).kind),
    ensures
        games_from("<games>"@ + entries_text(apps) + "</games>"@, 0) == apps,
{
    reveal_strlit("<games>");
    reveal_strlit("<game");
    let head = "<games>"@;
    let xml = head + entries_text(apps) + "</games>"@;
    // The root element is no entry.
    assert(xml.subrange(0, 5) =~= "<game"@);
    text::first_from_is(xml, "<game"@, 0, 0);
    assert(xml[5] == 's');
    assert(games_from(xml, 0) == games_from(xml, 5));
    entries_read(head, apps);
    // Nothing begins within the rest of its tag.
    let at = text::first_from(xml, "<game"@, 7);
    assert(text::first_from(xml, "<game"@, 5) == at) by {
        assert(xml[5] == head[5] && xml[6] == head[6]);
        assert(!text::occurs_at(xml, "<game"@, 5)) by {
            if text::occurs_at(xml, "<game"@, 5) {
                assert(xml.subrange(5, 10)[0] == '<');
            }
        }
        assert(!text::occurs_at(xml, "<game"@, 6)) by {
            if text::occurs_at(xml, "<game"@, 6) {
                assert(xml.subrange(6, 11)[0] == '<');
            }
        }
        reveal_strlit("</games>");
        assert(text::first_from(xml, "<game"@, 6) == at);
    }
    if let Some(start) = at {
        text::first_from_bounds(xml, "<game"@, 7);
    }
    assert(games_from(xml, 5) == games_from(xml, 7));
}

proof fn values_of_a_sum(a: Seq<Seq<char>>, b: Seq<Seq<char>>, key: Seq<char>)
    ensures
        values_on_lines(a + b, key) == values_on_lines(a, key) + values_on_lines(b, key),
    decreases b.len(),
{
    if b.len() == 0 {
        assert(a + b =~= a);
        assert(values_on_lines(a, key) + values_on_lines(b, key) =~= values_on_lines(a, key));
    } else {
        values_of_a_sum(a, b.drop_last(), key);
        assert((a + b).drop_last() =~= a + b.drop_last());
        assert((a + b).last() == b.last());
        assert(values_on_lines(a + b, key) =~= values_on_lines(a, key) + values_on_lines(b, key));
    }
}

/// A line ends in a line feed, and the carriage return that may come before it is no part
/// of the line. Where the last line is not ended, it is one all the same.
pub proof fn lines_end_in_line_feeds(line: Seq<char>, rest: Seq<char>)
    requires
        !line.contains('\n'),
        line.len() > 0 ==> line.last() != '\r',
    ensures
        lines_of(line + seq!['\n'] + rest) == seq![line] + lines_of(rest),
        lines_of(line + seq!['\r', '\n'] + rest) == seq![line] + lines_of(rest),
        lines_of(line) == if line.len() > 0 {
            seq![line]
        } else {
            Seq::empty()
        },
{
    split::separators_part(line, rest, '\n');
    split::pieces_hold_no_separator(rest, '\n');
    line_stands_first(line, rest);
    let ended = line + seq!['\r'];
    assert forall|i: int| 0 <= i < ended.len() implies ended[i] != '\n' by {
        if i < line.len() {
            assert(ended[i] == line[i]);
        }
    }
    assert(!ended.contains('\n'));
    split::separators_part(ended, rest, '\n');
    line_stands_first(ended, rest);
    assert(ended.last() == '\r');
    assert(ended.drop_last() =~= line);
    assert(line + seq!['\r', '\n'] + rest =~= ended + seq!['\n'] + rest);
    let parts = split::pieces(line, '\n');
    assert(parts == seq![line]);
    assert(parts.last() == line);
    assert(parts.drop_last() =~= Seq::empty());
    if line.len() > 0 {
        assert(lines_of(line) =~= seq![line]);
    } else {
        assert(lines_of(line) =~= Seq::<Seq<char>>::empty());
    }
}

proof fn line_stands_first(line: Seq<char>, rest: Seq<char>)
    requires
        !line.contains('\n'),
    ensures
        lines_of(line + seq!['\n'] + rest) == seq![without_return(line)] + lines_of(rest),
{
    split::separators_part(line, rest, '\n');
    split::pieces_hold_no_separator(rest, '\n');
    let parts = split::pieces(rest, '\n');
    let all = split::pieces(line + seq!['\n'] + rest, '\n');
    assert(all == seq![line] + parts);
    assert(all.last() == parts.last());
    assert(all.drop_last() =~= seq![line] + parts.drop_last());
    let strip = |l: Seq<char>| without_return(l);
    assert(all.drop_last().map_values(strip) =~= seq![without_return(line)]
        + parts.drop_last().map_values(strip));
    assert(lines_of(line + seq!['\n'] + rest) =~= seq![without_return(line)] + lines_of(rest));
}

/// A document's values are those of its lines, one line after another. A value counts
/// where its key is the one asked for in any case, whatever stands before, between and
/// behind the quotation marks; a line with another key is passed over.
pub proof fn pairs_are_read_line_by_line(
    front: Seq<char>,
    found: Seq<char>,
    gap: Seq<char>,
    value: Seq<char>,
    back: Seq<char>,
    rest: Seq<char>,
    key: Seq<char>,
)
    requires
        !front.contains('"') && !front.contains('\n'),
        !gap.contains('"') && !gap.contains('\n'),
        !back.contains('\n') && !back.contains('\r'),
        plain_value(found),
        plain_value(value),
    ensures
        ({
            let line = front + seq!['"'] + found + seq!['"'] + gap + seq!['"'] + value + seq!['"']
                + back;
            let document = line + seq!['\n'] + rest;
            let others = values_on_lines(lines_of(rest), key);
            values_on_lines(lines_of(document), key) == if text::same_ignoring_ascii_case(
                found,
                key,
            ) {
                seq![value] + others
            } else {
                others
            }
        }),
{
    let q = seq!['"'];
    let line = front + q + found + q + gap + q + value + q + back;
    let d = value + q + back;
    let c = gap + q + d;
    let b = found + q + c;
    assert(line =~= front + q + b);
    split::separators_part(front, b, '"');
    split::separators_part(found, c, '"');
    split::separators_part(gap, d, '"');
    split::separators_part(value, back, '"');
    split::pieces_hold_no_separator(back, '"');
    let parts = split::pieces(line, '"');
    assert(parts =~= seq![front] + (seq![found] + (seq![gap] + (seq![value] + split::pieces(
        back,
        '"',
    )))));
    assert(parts.len() > 3 && parts[1] == found && parts[3] == value);
    assert forall|i: int| 0 <= i < line.len() implies line[i] != '\n' by {
        let f = front.len();
        let k = found.len();
        let g = gap.len();
        let v = value.len();
        if i < f {
            assert(line[i] == front[i]);
        } else if f < i < f + 1 + k {
            assert(line[i] == found[i - f - 1]);
        } else if f + 1 + k < i < f + k + 2 + g {
            assert(line[i] == gap[i - f - k - 2]);
        } else if f + k + 2 + g < i < f + k + g + 3 + v {
            assert(line[i] == value[i - f - k - g - 3]);
        } else if f + k + g + 3 + v < i {
            assert(line[i] == back[i - f - k - g - v - 4]);
        }
    }
    assert(!line.contains('\n'));
    if back.len() > 0 {
        assert(line.last() == back[back.len() - 1]);
    } else {
        assert(line.last() == '"');
    }
    lines_end_in_line_feeds(line, rest);
    values_of_a_sum(seq![line], lines_of(rest), key);
    let one = seq![line];
    assert(one.drop_last() =~= Seq::empty());
    assert(one.last() == line);
    assert(values_on_lines(one.drop_last(), key) =~= Seq::empty());
    if text::same_ignoring_ascii_case(found, key) {
        assert(values_on_lines(one, key) =~= seq![value]);
    } else {
        assert(values_on_lines(one, key) =~= Seq::empty());
        assert(Seq::<Seq<char>>::empty() + values_on_lines(lines_of(rest), key)
            =~= values_on_lines(lines_of(rest), key));
    }
}

/// A line with fewer than three quotation marks gives no key a value.
pub proof fn lines_without_pairs_are_passed_over(
    a: Seq<char>,
    b: Seq<char>,
    c: Seq<char>,
    key: Seq<char>,
)
    requires
        !a.contains('"'),
        !b.contains('"'),
        !c.contains('"'),
    ensures
        value_on_line(a, key) is None,
        value_on_line(a + seq!['"'] + b, key) is None,
        value_on_line(a + seq!['"'] + b + seq!['"'] + c, key) is None,
{
    split::separators_part(a, b, '"');
    split::separators_part(b, c, '"');
    split::separators_part(c, c, '"');
    split::separators_part(a, b + seq!['"'] + c, '"');
    assert(a + seq!['"'] + b + seq!['"'] + c =~= a + seq!['"'] + (b + seq!['"'] + c));
}

/// The library under the root is always there, and comes first.
pub proof fn the_root_is_a_library(
    root: Seq<u8>,
    candidates: Seq<Seq<u8>>,
    are_dirs: Seq<bool>,
)
    ensures
        folders_of(root, candidates, are_dirs).len() > 0,
        folders_of(root, candidates, are_dirs)[0] == fs_path::joined(
            root,
            encode_utf8("steamapps"@),
        ),
    decreases candidates.len(),
{
    if candidates.len() > 0 {
        the_root_is_a_library(root, candidates.drop_last(), are_dirs);
    }
}

/// Every candidate that is a directory is a library, under its own spelling or another.
pub proof fn directories_are_libraries(
    root: Seq<u8>,
    candidates: Seq<Seq<u8>>,
    are_dirs: Seq<bool>,
    i: int,
)
    requires
        0 <= i < candidates.len(),
        i < are_dirs.len(),
        are_dirs[i],
    ensures
        exists|k: int|
            0 <= k < folders_of(root, candidates, are_dirs).len() && fs_path::same_path(
                #[trigger] folders_of(root, candidates, are_dirs)[k],
                candidates[i],
            ),
    decreases candidates.len(),
{
    let fewer = candidates.drop_last();
    let before = folders_of(root, fewer, are_dirs);
    let all = folders_of(root, candidates, are_dirs);
    if i < candidates.len() - 1 {
        directories_are_libraries(root, fewer, are_dirs, i);
        let k = choose|k: int|
            0 <= k < before.len() && fs_path::same_path(#[trigger] before[k], fewer[i]);
        assert(all[k] == before[k]);
    } else if listed_path(before, candidates.last()) {
        let k = choose|k: int|
            0 <= k < before.len() && fs_path::same_path(#[trigger] before[k], candidates.last());
        assert(all[k] == before[k]);
    } else {
        fs_path::being_one_path_is_mutual(candidates[i], candidates[i], candidates[i]);
        assert(all[before.len() as int] == candidates[i]);
    }
}

/// Every library but the root's own is a candidate that is a directory.
pub proof fn libraries_are_directories(
    root: Seq<u8>,
    candidates: Seq<Seq<u8>>,
    are_dirs: Seq<bool>,
    k: int,
) -> (i: int)
    requires
        0 < k < folders_of(root, candidates, are_dirs).len(),
    ensures
        0 <= i < candidates.len(),
        i < are_dirs.len(),
        are_dirs[i],
        folders_of(root, candidates, are_dirs)[k] == candidates[i],
    decreases candidates.len(),
{
    let fewer = candidates.drop_last();
    if k < folders_of(root, fewer, are_dirs).len() {
        libraries_are_directories(root, fewer, are_dirs, k)
    } else {
        candidates.len() - 1
    }
}

/// No library is listed twice, and they are listed in the order they are named in.
pub proof fn libraries_are_listed_once(
    root: Seq<u8>,
    candidates: Seq<Seq<u8>>,
    are_dirs: Seq<bool>,
    j: int,
    k: int,
)
    requires
        0 <= j < k < folders_of(root, candidates, are_dirs).len(),
    ensures
        !fs_path::same_path(
            folders_of(root, candidates, are_dirs)[j],
            folders_of(root, candidates, are_dirs)[k],
        ),
    decreases candidates.len(),
{
    let fewer = candidates.drop_last();
    let before = folders_of(root, fewer, are_dirs);
    let all = folders_of(root, candidates, are_dirs);
    if k < before.len() {
        libraries_are_listed_once(root, fewer, are_dirs, j, k);
        assert(all[j] == before[j] && all[k] == before[k]);
    } else {
        assert(all[j] == before[j]);
        assert(!listed_path(before, candidates.last()));
    }
}

/// What further candidates add comes behind what is listed.
pub proof fn further_libraries_come_last(
    root: Seq<u8>,
    candidates: Seq<Seq<u8>>,
    are_dirs: Seq<bool>,
    more: Seq<u8>,
)
    ensures
        folders_of(root, candidates, are_dirs).is_prefix_of(
            folders_of(root, candidates.push(more), are_dirs),
        ),
{
    assert(candidates.push(more).drop_last() =~= candidates);
}

/// An app is installed exactly where some library folder holds a file
/// `appmanifest_<id>.acf` of it.
pub proof fn manifests_tell_what_is_installed(folders: Seq<Seq<Seq<char>>>, id: u32)
    ensures
        installed_ids(folders).contains(id) <==> exists|f: int, i: int, digits: Seq<char>|
            #![trigger folders[f][i], "appmanifest_"@ + digits + ".acf"@]
            {
                &&& 0 <= f < folders.len()
                &&& 0 <= i < folders[f].len()
                &&& folders[f][i] == "appmanifest_"@ + digits + ".acf"@
                &&& text::read_u32(digits) == Some(id as nat)
            },
    decreases folders.len(),
{
    let before = "appmanifest_"@;
    let behind = ".acf"@;
    if installed_ids(folders).contains(id) {
        let (f, i) = manifest_of(folders, id);
        paths::names_carry_what_stands_between(
            folders[f][i],
            before,
            Seq::empty(),
            behind,
        );
        let digits = choose|digits: Seq<char>|
            folders[f][i] == #[trigger] (before + digits + behind) && text::read_u32(digits)
                == paths::id_in_name(folders[f][i], before, behind);
        assert(folders[f][i] == before + digits + behind);
    }
    if exists|f: int, i: int, digits: Seq<char>|
        #![trigger folders[f][i], "appmanifest_"@ + digits + ".acf"@]
        {
            &&& 0 <= f < folders.len()
            &&& 0 <= i < folders[f].len()
            &&& folders[f][i] == "appmanifest_"@ + digits + ".acf"@
            &&& text::read_u32(digits) == Some(id as nat)
        } {
        let (f, i, digits) = choose|f: int, i: int, digits: Seq<char>|
            #![trigger folders[f][i], "appmanifest_"@ + digits + ".acf"@]
            {
                &&& 0 <= f < folders.len()
                &&& 0 <= i < folders[f].len()
                &&& folders[f][i] == "appmanifest_"@ + digits + ".acf"@
                &&& text::read_u32(digits) == Some(id as nat)
            };
        paths::names_carry_what_stands_between(folders[f][i], before, digits, behind);
        manifest_counts(folders, f, i, id);
    }
}

proof fn manifest_of(folders: Seq<Seq<Seq<char>>>, id: u32) -> (r: (int, int))
    requires
        installed_ids(folders).contains(id),
    ensures
        0 <= r.0 < folders.len(),
        0 <= r.1 < folders[r.0].len(),
        paths::id_in_name(folders[r.0][r.1], "appmanifest_"@, ".acf"@) == Some(id as nat),
    decreases folders.len(),
{
    if installed_ids(folders.drop_last()).contains(id) {
        manifest_of(folders.drop_last(), id)
    } else {
        let names = folders.last();
        let i = choose|i: int|
            0 <= i < names.len() && paths::id_in_name(
                #[trigger] names[i],
                "appmanifest_"@,
                ".acf"@,
            ) == Some(id as nat);
        (folders.len() - 1, i)
    }
}

proof fn manifest_counts(folders: Seq<Seq<Seq<char>>>, f: int, i: int, id: u32)
    requires
        0 <= f < folders.len(),
        0 <= i < folders[f].len(),
        paths::id_in_name(folders[f][i], "appmanifest_"@, ".acf"@) == Some(id as nat),
    ensures
        installed_ids(folders).contains(id),
    decreases folders.len(),
{
    if f < folders.len() - 1 {
        manifest_counts(folders.drop_last(), f, i, id);
    } else {
        assert(folders.last()[i] == folders[f][i]);
    }
}

/// An attribute's value is what stands between its quotation marks, and a tag without the
/// attribute gives none.
pub proof fn attributes_are_found(
    front: Seq<char>,
    name: Seq<char>,
    value: Seq<char>,
    back: Seq<char>,
)
    requires
        !front.contains('='),
        !name.contains('='),
        name.len() > 0,
        !value.contains('"'),
    ensures
        attribute_in(front + name + "=\""@ + value + seq!['"'] + back, name) == Some(value),
        attribute_in(front, name) is None,
{
    reveal_strlit("=\"");
    reveal_strlit("\"");
    let key = name + "=\""@;
    let whole = front + name + "=\""@ + value + seq!['"'] + back;
    let at = front.len() as int;
    let n = name.len() as int;
    assert(key[n] == '=');
    assert(whole.subrange(at, at + key.len()) =~= key);
    assert forall|j: int| 0 <= j < at implies !text::occurs_at(whole, key, j) by {
        if text::occurs_at(whole, key, j) {
            assert(whole.subrange(j, j + key.len())[n] == '=');
            assert(whole[j + n] == '=');
            if j + n < at {
                assert(whole[j + n] == front[j + n]);
            } else {
                assert(whole[j + n] == name[j + n - at]);
            }
        }
    }
    text::first_from_is(whole, key, 0, at);
    let start = at + key.len();
    let end = start + value.len();
    assert forall|j: int| start <= j < end implies !text::occurs_at(whole, "\""@, j) by {
        if text::occurs_at(whole, "\""@, j) {
            assert(whole.subrange(j, j + 1)[0] == '"');
            assert(whole[j] == value[j - start]);
        }
    }
    assert(whole[end] == '"');
    assert(whole.subrange(end, end + 1) =~= "\""@);
    text::first_from_is(whole, "\""@, start, end);
    assert(whole.subrange(start, end) =~= value);
    assert forall|j: int| 0 <= j implies !text::occurs_at(front, key, j) by {
        if text::occurs_at(front, key, j) {
            assert(front.subrange(j, j + key.len())[n] == '=');
            assert(front[j + n] == '=');
        }
    }
    text::first_from_is_none(front, key, 0);
}

/// An entry of the master list is the number in its body, white space around it aside, and
/// is of the kind that its `type` says, or normal where there is none. Where the body is
/// no number, the entry is passed over, and the next is read all the same.
pub proof fn entries_are_read(
    pre: Seq<char>,
    attributes: Seq<char>,
    body: Seq<char>,
    post: Seq<char>,
)
    requires
        attributes.len() > 0 ==> attributes[0] == ' ' || attributes[0] == '\t' || attributes[0]
            == '\n' || attributes[0] == '\r',
        !attributes.contains('>'),
        !body.contains('<'),
    ensures
        ({
            let entry = "<game"@ + attributes + ">"@ + body + "</game>"@;
            let xml = pre + entry + post;
            let rest = games_from(xml, (pre.len() + entry.len()) as int);
            games_from(xml, pre.len() as int) == match text::read_u32(text::trimmed(body)) {
                Some(id) => seq![
                    RemoteModel {
                        app_id: id as u32,
                        kind: match attribute_in(attributes, "type"@) {
                            Some(kind) => kind,
                            None => "normal"@,
                        },
                    },
                ] + rest,
                None => rest,
            }
        }),
{
    reveal_strlit("<game");
    reveal_strlit(">");
    reveal_strlit("</game>");
    let entry = "<game"@ + attributes + ">"@ + body + "</game>"@;
    let xml = pre + entry + post;
    let start = pre.len() as int;
    let after = start + 5;
    let open_end = after + attributes.len();
    let close = open_end + 1 + body.len();
    let opening = "<game"@;
    let closing = "</game>"@;
    assert(xml.subrange(start, start + 5) =~= opening);
    text::first_from_is(xml, opening, start, start);
    assert(xml[open_end] == '>');
    if attributes.len() > 0 {
        assert(xml[after] == attributes[0]);
    }
    assert forall|j: int| after <= j < open_end implies !text::occurs_at(xml, ">"@, j) by {
        if text::occurs_at(xml, ">"@, j) {
            assert(xml.subrange(j, j + 1)[0] == '>');
            assert(xml[j] == attributes[j - after]);
        }
    }
    assert(xml.subrange(open_end, open_end + 1) =~= ">"@);
    text::first_from_is(xml, ">"@, after, open_end);
    assert forall|j: int| open_end + 1 <= j < close implies !text::occurs_at(xml, closing, j) by {
        if text::occurs_at(xml, closing, j) {
            assert(xml.subrange(j, j + 7)[0] == '<');
            assert(xml[j] == body[j - open_end - 1]);
        }
    }
    assert(xml.subrange(close, close + 7) =~= closing);
    text::first_from_is(xml, closing, open_end + 1, close);
    assert(xml.subrange(open_end + 1, close) =~= body);
    assert(xml.subrange(after, open_end) =~= attributes);
    assert(close + 7 == pre.len() + entry.len());
}

/// What stands between entries changes nothing: a document is read on from the next tag.
pub proof fn other_text_is_passed_over(pre: Seq<char>, other: Seq<char>, post: Seq<char>)
    requires
        !other.contains('<'),
    ensures
        games_from(pre + other + post, pre.len() as int) == games_from(
            pre + other + post,
            (pre.len() + other.len()) as int,
        ),
{
    reveal_strlit("<game");
    let xml = pre + other + post;
    let a = pre.len() as int;
    let b = a + other.len();
    let tag = "<game"@;
    assert forall|j: int| a <= j < b implies !text::occurs_at(xml, tag, j) by {
        if text::occurs_at(xml, tag, j) {
            assert(xml.subrange(j, j + 5)[0] == '<');
            assert(xml[j] == other[j - a]);
        }
    }
    nothing_begins_before(xml, tag, a, b);
    text::first_from_bounds(xml, tag, b);
}

proof fn nothing_begins_before(hay: Seq<char>, needle: Seq<char>, a: int, b: int)
    requires
        0 <= a <= b,
        forall|j: int| a <= j < b ==> !text::occurs_at(hay, needle, j),
    ensures
        text::first_from(hay, needle, a) == text::first_from(hay, needle, b),
    decreases b - a,
{
    if a < b {
        assert(!text::occurs_at(hay, needle, a));
        nothing_begins_before(hay, needle, a + 1, b);
    }
}

/// A game is shown by its name; without one, by its ID.
pub proof fn games_without_a_name_show_their_id(app_id: u32, name: Seq<char>)
    ensures
        shown_name(app_id, Some(name)) == name,
        exists|a: Seq<char>| shown_name(app_id, None) == #[trigger] (a + text::decimal(
            app_id as nat,
        )),
{
    assert(shown_name(app_id, None) == "App "@ + text::decimal(app_id as nat));
}

/// An asset's address ends in the app it belongs to and its own name, and assets of the
/// store and of the community lie on different servers.
pub proof fn assets_lie_under_their_app(app_id: u32, file: Seq<char>, other: Seq<char>)
    ensures
        exists|a: Seq<char>|
            store_url(app_id, file) == #[trigger] (a + "/apps/"@ + text::decimal(app_id as nat)
                + "/"@ + file),
        exists|a: Seq<char>|
            community_url(app_id, file) == #[trigger] (a + "/apps/"@ + text::decimal(app_id as nat)
                + "/"@ + file),
        store_url(app_id, file) != community_url(app_id, other),
{
    reveal_strlit("https://shared.cloudflare.steamstatic.com/store_item_assets/steam/apps/");
    reveal_strlit("https://cdn.steamstatic.com/steamcommunity/public/images/apps/");
    reveal_strlit("https://shared.cloudflare.steamstatic.com/store_item_assets/steam");
    reveal_strlit("https://cdn.steamstatic.com/steamcommunity/public/images");
    reveal_strlit("/apps/");
    let a = "https://shared.cloudflare.steamstatic.com/store_item_assets/steam"@;
    let b = "https://cdn.steamstatic.com/steamcommunity/public/images"@;
    assert("https://shared.cloudflare.steamstatic.com/store_item_assets/steam/apps/"@ =~= a
        + "/apps/"@);
    assert("https://cdn.steamstatic.com/steamcommunity/public/images/apps/"@ =~= b + "/apps/"@);
    assert(store_url(app_id, file) == a + "/apps/"@ + text::decimal(app_id as nat) + "/"@ + file);
    assert(community_url(app_id, file) == b + "/apps/"@ + text::decimal(app_id as nat) + "/"@
        + file);
    assert(store_url(app_id, file)[8] == 's');
    assert(community_url(app_id, other)[8] == 'c');
}

/// A game's capsule is the small one in the user's language; where Steam has none, the
/// English one; where it has none either, the logo; and where it has no logo, there is none.
pub proof fn capsules_are_searched_in_order(app_id: u32, language: Seq<char>, value: Seq<char>)
    requires
        language.len() > 0,
        !text::same_ignoring_ascii_case(language, "english"@),
    ensures
        ({
            let search = |answers: Seq<Option<Seq<char>>>|
                capsule_search(app_id, capsule_keys(language), answers, 0);
            let no = None::<Seq<char>>;
            &&& search(seq![]) == (CapsuleModel::Ask { key: "small_capsule/"@ + language })
            &&& search(seq![Some(value)]) == (CapsuleModel::Done {
                url: Some(store_url(app_id, value)),
            })
            &&& search(seq![no]) == (CapsuleModel::Ask { key: "small_capsule/english"@ })
            &&& search(seq![no, Some(value)]) == (CapsuleModel::Done {
                url: Some(store_url(app_id, value)),
            })
            &&& search(seq![no, no]) == (CapsuleModel::Ask { key: "logo"@ })
            &&& search(seq![no, no, Some(value)]) == (CapsuleModel::Done {
                url: Some(community_url(app_id, value + ".jpg"@)),
            })
            &&& search(seq![no, no, no]) == (CapsuleModel::Done { url: None })
        }),
{
    reveal_with_fuel(capsule_search, 4);
    let keys = capsule_keys(language);
    assert(keys =~= seq!["small_capsule/"@ + language, "small_capsule/english"@, "logo"@]);
}

/// Where the user's language is English, the English capsule is asked for once; where it is
/// not known, the English one is the first.
pub proof fn english_is_asked_for_once(app_id: u32, language: Seq<char>, value: Seq<char>)
    requires
        language.len() == 0 || text::same_ignoring_ascii_case(language, "english"@),
    ensures
        ({
            let search = |answers: Seq<Option<Seq<char>>>|
                capsule_search(app_id, capsule_keys(language), answers, 0);
            let no = None::<Seq<char>>;
            &&& search(seq![]) == (CapsuleModel::Ask {
                key: if language.len() == 0 {
                    "small_capsule/english"@
                } else {
                    "small_capsule/"@ + language
                },
            })
            &&& search(seq![Some(value)]) == (CapsuleModel::Done {
                url: Some(store_url(app_id, value)),
            })
            &&& search(seq![no]) == (CapsuleModel::Ask { key: "logo"@ })
            &&& search(seq![no, Some(value)]) == (CapsuleModel::Done {
                url: Some(community_url(app_id, value + ".jpg"@)),
            })
            &&& search(seq![no, no]) == (CapsuleModel::Done { url: None })
        }),
{
    reveal_with_fuel(capsule_search, 4);
    let keys = capsule_keys(language);
    reveal_strlit("english");
    if language.len() == 0 {
        assert(!text::same_ignoring_ascii_case(language, "english"@)) by {
            if text::same_ignoring_ascii_case(language, "english"@) {
                assert(text::ascii_lowered(language).len() == 0);
                assert(text::ascii_lowered("english"@).len() == 7);
            }
        }
        assert(keys =~= seq!["small_capsule/english"@, "logo"@]);
    } else {
        assert(keys =~= seq!["small_capsule/"@ + language, "logo"@]);
    }
}

} // verus!
