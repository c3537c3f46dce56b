use sam::fs_path::FsPath;
use sam::library::{
    capsule_url, community_asset_url, describe, library_folders, library_manifest,
    local_candidates, manifest_folders, parse_games_xml, quoted_values_for_key, store_asset_url,
    CapsuleStep, Source,
};

fn names(list: &[&str]) -> Vec<String> {
    list.iter().map(|s| s.to_string()).collect()
}

#[test]
fn parses_the_games_document() {
    let xml = r#"<?xml version="1.0"?>
            <games>
              <game>480</game>
              <game type="demo">1234</game>
              <game type="junk">9999</game>
            </games>"#;

    let apps = parse_games_xml(xml);
    assert_eq!(apps.len(), 3);
    assert_eq!(apps[0].app_id, 480);
    // A missing type attribute means an ordinary game.
    assert_eq!(apps[0].kind, "normal");
    assert_eq!(apps[1].kind, "demo");
    assert_eq!(apps[2].app_id, 9999);
}

#[test]
fn ignores_malformed_entries() {
    let xml = "<games><game>notanumber</game><game>7</game></games>";
    let apps = parse_games_xml(xml);
    assert_eq!(apps.len(), 1);
    assert_eq!(apps[0].app_id, 7);
}

#[test]
fn reads_library_paths_from_text_vdf() {
    let vdf = r#"
"libraryfolders"
{
	"0"
	{
		"path"		"/home/someone/.local/share/Steam"
		"label"		""
	}
	"1"
	{
		"path"		"/mnt/games/SteamLibrary"
	}
}"#;
    let paths = quoted_values_for_key(vdf, "path");
    assert_eq!(
        paths,
        vec![
            "/home/someone/.local/share/Steam",
            "/mnt/games/SteamLibrary"
        ]
    );
    // The key match must not pick up "label".
    assert_eq!(quoted_values_for_key(vdf, "label"), vec![""]);
}

#[test]
fn builds_cdn_urls() {
    assert_eq!(
        store_asset_url(620, "capsule_231x87.jpg"),
        "https://shared.cloudflare.steamstatic.com/store_item_assets/steam/apps/620/capsule_231x87.jpg"
    );
    assert_eq!(
        community_asset_url(620, "abc.jpg"),
        "https://cdn.steamstatic.com/steamcommunity/public/images/apps/620/abc.jpg"
    );
}

#[test]
fn written_entries_are_read_back() {
    let xml = "<games><game type=\"a b\">1</game><game type=\"\">4294967295</game></games>";
    let apps = parse_games_xml(xml);
    assert_eq!(apps.len(), 2);
    assert_eq!((apps[0].app_id, apps[0].kind.as_str()), (1, "a b"));
    assert_eq!((apps[1].app_id, apps[1].kind.as_str()), (u32::MAX, ""));
}

#[test]
fn a_document_that_breaks_off_keeps_what_was_whole() {
    assert_eq!(parse_games_xml("<game>1</game><game>2").len(), 1);
    assert_eq!(parse_games_xml("<game>1</game><game type=\"x\"").len(), 1);
    assert_eq!(parse_games_xml("<game").len(), 0);
    assert_eq!(parse_games_xml("").len(), 0);
    assert_eq!(parse_games_xml("<game> 12\n</game>")[0].app_id, 12);
    assert_eq!(parse_games_xml("<game\ttype='x'>3</game>")[0].kind, "normal");
    assert_eq!(parse_games_xml("<gamer>1</gamer><game>3</game>").len(), 1);
    assert_eq!(parse_games_xml("<game>4294967296</game>").len(), 0);
    assert_eq!(parse_games_xml("é<game type=\"ü\">5</game>")[0].kind, "ü");
}

#[test]
fn lines_may_end_in_a_carriage_return() {
    assert_eq!(quoted_values_for_key("\"PATH\" \"a\"\r\n\"path\" \"b\r\n", "path"), vec!["a", "b"]);
    assert_eq!(quoted_values_for_key("\"path\" \"b\r", "path"), vec!["b\r"]);
    assert_eq!(quoted_values_for_key("\"path\"", "path"), Vec::<String>::new());
}

#[test]
fn candidates_are_gathered_in_order_and_once() {
    let cached = names(&[
        "UserGameStatsSchema_620.bin",
        "UserGameStatsSchema_10.bin",
        "UserGameStatsSchema_.bin",
        "UserGameStatsSchema_12.bin.bak",
        "UserGameStats_76561197960287930_620.bin",
        "UserGameStatsSchema_99999999999.bin",
    ]);
    let folders = vec![
        names(&["appmanifest_620.acf", "appmanifest_400.acf", "libraryfolders.vdf"]),
        names(&["appmanifest_30.acf", "appmanifest_400.acf"]),
    ];
    assert_eq!(local_candidates(&cached, &folders), vec![10, 30, 400, 620]);
}

#[test]
fn library_folders_are_listed_once() {
    let root = FsPath::from_text("/home/u/.steam/steam");
    assert_eq!(
        library_manifest(&root).display(),
        "/home/u/.steam/steam/steamapps/libraryfolders.vdf"
    );
    let manifest =
        "\"path\" \"/home/u/.steam/steam/\"\n\"path\" \"/mnt/a\"\n\"path\" \"/mnt/b\"\n\"path\" \"/mnt//a\"\n";
    let candidates = manifest_folders(manifest);
    assert_eq!(candidates.len(), 4);
    assert_eq!(candidates[1].display(), "/mnt/a/steamapps");
    let folders = library_folders(&root, &candidates, &vec![true, true, false, true]);
    let shown: Vec<String> = folders.iter().map(|f| f.display()).collect();
    assert_eq!(shown, vec!["/home/u/.steam/steam/steamapps", "/mnt/a/steamapps"]);
}

/// Asks for a capsule until the search is over.
fn search(language: &str, known: &[(&str, &str)]) -> (Vec<String>, Option<String>) {
    let mut asked = Vec::new();
    let mut answers = Vec::new();
    loop {
        match capsule_url(620, language, &answers) {
            CapsuleStep::Ask { key } => {
                let answer = known.iter().find(|(k, _)| *k == key).map(|(_, v)| v.to_string());
                asked.push(key);
                answers.push(answer);
            }
            CapsuleStep::Done { url } => return (asked, url),
        }
    }
}

#[test]
fn capsules_are_looked_for_in_order() {
    let (asked, url) = search("german", &[("small_capsule/english", "e.jpg"), ("logo", "l")]);
    assert_eq!(asked, vec!["small_capsule/german", "small_capsule/english"]);
    assert_eq!(url, Some(store_asset_url(620, "e.jpg")));

    let (asked, url) = search("English", &[("logo", "l")]);
    assert_eq!(asked, vec!["small_capsule/English", "logo"]);
    assert_eq!(url, Some(community_asset_url(620, "l.jpg")));

    let (asked, url) = search("", &[]);
    assert_eq!(asked, vec!["small_capsule/english", "logo"]);
    assert_eq!(url, None);
}

#[test]
fn a_game_without_a_name_goes_by_its_id() {
    let game = describe(620, "demo", Source::Remote, None, None, false);
    assert_eq!(game.name, "App 620");
    assert_eq!(game.kind, "demo");
    assert_eq!(game.source, Source::Remote);
    let game = describe(620, "normal", Source::Installed, Some("Portal 2".into()), None, true);
    assert_eq!(game.name, "Portal 2");
    assert!(game.has_schema);
    assert_eq!(game.clone(), game);
}
