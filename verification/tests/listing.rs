use steam::app_info::parse_app_info;
use steam::app_info::AppInfo;
use steam::package_info::unwrap_tree;
use steam::package_info::PackageInfo;
use steam::property::Property;
use steam::property::PropertyMap;
use steam::render::decimal_string;
use steam::render::format_found;
use steam::render::print_found;
use steam::render::print_props_helper;
use steam::render::show;
use steam::steam_game::logo_file_name;
use steam::steam_game::manifest_file_name;
use steam::steam_game::owned_games;
use steam::steam_game::SteamGame;

fn number(n: u32) -> Property {
    Property::Uint32(n)
}

fn text(s: &str) -> Property {
    Property::String(s.to_string())
}

fn map(entries: Vec<(&str, Property)>) -> PropertyMap {
    let mut out = PropertyMap::new();
    for (key, value) in entries {
        out.insert(key.to_string(), value);
    }
    out
}

fn app(id: u32, props: PropertyMap) -> AppInfo {
    AppInfo {
        id,
        state: 0,
        last_updated: 0,
        access_token: 0,
        checksum: [0; 20],
        change_no: 0,
        props,
    }
}

fn game_app(id: u32, name: Option<&str>, kind: Option<&str>) -> AppInfo {
    let mut common = Vec::new();
    if let Some(name) = name {
        common.push(("name", text(name)));
    }
    if let Some(kind) = kind {
        common.push(("type", text(kind)));
    }
    let appinfo = map(vec![("appid", number(id)), ("common", Property::Table(map(common)))]);
    app(id, map(vec![("appinfo", Property::Table(appinfo))]))
}

fn package(id: u32, app_ids: &[u32]) -> PackageInfo {
    let mut ids = PropertyMap::new();
    for (i, app_id) in app_ids.iter().enumerate() {
        ids.insert(i.to_string(), number(*app_id));
    }
    PackageInfo { id, change_no: 0, props: map(vec![("appids", Property::Table(ids))]) }
}

fn sample() -> PropertyMap {
    map(vec![
        ("a", number(7)),
        ("b", Property::Table(map(vec![("c", text("x")), ("d", Property::Table(map(vec![("e", Property::Uint64(9))])))]))),
        ("f", text("say \"hi\"\n")),
    ])
}

#[test]
fn decimal_of_numbers() {
    assert_eq!(decimal_string(0), "0");
    assert_eq!(decimal_string(7), "7");
    assert_eq!(decimal_string(10), "10");
    assert_eq!(decimal_string(1234567890), "1234567890");
    assert_eq!(decimal_string(4294967295), "4294967295");
    assert_eq!(decimal_string(u64::MAX), "18446744073709551615");
    for n in [9u64, 99, 100, 101, 1000, 999_999, 1_000_000] {
        assert_eq!(decimal_string(n), n.to_string());
    }
}

#[test]
fn format_one_line() {
    assert_eq!(format_found(None), "None");
    assert_eq!(format_found(Some(&number(42))), "42");
    assert_eq!(format_found(Some(&Property::Uint64(1 << 40))), "1099511627776");
    assert_eq!(format_found(Some(&text("plain \"text\""))), "plain \"text\"");
    assert_eq!(format_found(Some(&Property::Table(PropertyMap::new()))), "(map)");
}

#[test]
fn show_names_the_kind() {
    assert_eq!(show(&number(7), ""), "Uint32(7)");
    assert_eq!(show(&Property::Uint64(8), "ignored"), "Uint64(8)");
    assert_eq!(show(&text("x"), "\"x\""), "String(\"x\")");
    assert_eq!(show(&number(7), ""), format!("{:?}", number(7)));
    assert_eq!(show(&Property::Uint64(8), ""), format!("{:?}", Property::Uint64(8)));
}

#[test]
fn listing_goes_down_to_depth() {
    let tree = sample();
    assert_eq!(
        print_props_helper(&tree, 100, ""),
        vec![
            "a Uint32(7)",
            "b (map)",
            "\tc String(\"x\")",
            "\td (map)",
            "\t\te Uint64(9)",
            "f String(\"say \\\"hi\\\"\\n\")",
        ]
    );
    assert_eq!(
        print_props_helper(&tree, 1, "> "),
        vec![
            "> a Uint32(7)",
            "> b (map)",
            "> \tc String(\"x\")",
            "> \td (map)",
            "> f String(\"say \\\"hi\\\"\\n\")",
        ]
    );
    assert_eq!(
        print_props_helper(&tree, 0, ""),
        vec!["a Uint32(7)", "b (map)", "f String(\"say \\\"hi\\\"\\n\")"]
    );
    assert!(print_props_helper(&PropertyMap::new(), 5, "x").is_empty());
}

#[test]
fn listing_quotes_texts_as_debug_does() {
    for s in ["", "plain", "tab\there", "quote\"", "back\\slash", "é", "\u{7f}", "\u{1F3AE}"] {
        let tree = map(vec![("k", text(s))]);
        let line = format!("k {:?}", Property::String(s.to_string()));
        assert_eq!(print_props_helper(&tree, 0, ""), vec![line]);
    }
}

#[test]
fn record_listing_and_entries() {
    let info = app(1, sample());
    assert_eq!(info.print_props(0).len(), 3);
    assert_eq!(info.print_props(1).len(), 5);
    assert_eq!(info.print_props(2).len(), 6);
    assert_eq!(info.print_props(2), print_props_helper(&info.props, 2, ""));
    assert_eq!(info.print_props_helper(&info.props, 1, "p"), print_props_helper(&info.props, 1, "p"));
    assert_eq!(info.format_entry(&["a"]), "7");
    assert_eq!(info.format_entry(&["b"]), "(map)");
    assert_eq!(info.format_entry(&["b", "c"]), "x");
    assert_eq!(info.format_entry(&["b", "d", "e"]), "9");
    assert_eq!(info.format_entry(&["nope"]), "None");
    assert_eq!(info.format_entry(&[]), "None");
    assert_eq!(info.print_entry(&["a"]), vec!["7"]);
    assert_eq!(info.print_entry(&["nope"]), vec!["None"]);
    assert_eq!(info.print_entry(&["f"]), vec!["say \"hi\"\n"]);
    assert_eq!(
        info.print_entry(&["b"]),
        vec!["c String(\"x\")", "d (map)", "\te Uint64(9)"]
    );
}

#[test]
fn package_listing_and_entries() {
    let wrapped = map(vec![("17", Property::Table(sample()))]);
    let info = PackageInfo { id: 17, change_no: 0, props: unwrap_tree(wrapped).unwrap() };
    assert_eq!(info.print_props(2).len(), 6);
    assert_eq!(info.print_props_helper(&info.props, 0, "-"), vec!["-a Uint32(7)", "-b (map)", "-f String(\"say \\\"hi\\\"\\n\")"]);
    assert_eq!(info.format_entry(&["b", "c"]), "x");
    assert_eq!(info.format_entry(&["17"]), "None");
    assert_eq!(info.print_entry(&["b", "d"]), vec!["e Uint64(9)"]);
    assert_eq!(info.print_entry(&["b", "d", "e"]), vec!["9"]);
}

#[test]
fn found_map_is_listed_deeply() {
    let mut inner = map(vec![("leaf", number(1))]);
    for i in 0..50 {
        inner = map(vec![(if i % 2 == 0 { "even" } else { "odd" }, Property::Table(inner))]);
    }
    let root = Property::Table(inner);
    let lines = print_found(Some(&root));
    assert_eq!(lines.len(), 51);
    assert_eq!(lines[50], format!("{}leaf Uint32(1)", "\t".repeat(50)));
    assert_eq!(print_found(None), vec!["None"]);
}

#[test]
fn file_names() {
    assert_eq!(logo_file_name(440), "440_library_600x900.jpg");
    assert_eq!(manifest_file_name(440), "appmanifest_440.acf");
    assert_eq!(logo_file_name(0), "0_library_600x900.jpg");
    assert_eq!(manifest_file_name(u32::MAX), "appmanifest_4294967295.acf");
}

#[test]
fn owned_games_come_from_first_app_ids() {
    let packages = vec![package(1, &[440, 441]), package(2, &[10]), package(3, &[440])];
    assert_eq!(owned_games(&packages), Some(vec![440, 10, 440]));
    assert_eq!(owned_games(&Vec::new()), Some(vec![]));
    let mut broken = vec![package(1, &[440]), package(2, &[])];
    assert_eq!(owned_games(&broken), None);
    broken[1] = PackageInfo { id: 2, change_no: 0, props: PropertyMap::new() };
    assert_eq!(owned_games(&broken), None);
    broken[1] = PackageInfo {
        id: 2,
        change_no: 0,
        props: map(vec![("appids", Property::Table(map(vec![("0", text("440"))])))]),
    };
    assert_eq!(owned_games(&broken), None);
}

#[test]
fn games_are_owned_named_and_of_kind_game() {
    let packages = vec![package(1, &[10, 99]), package(2, &[20]), package(3, &[30]), package(4, &[40]), package(5, &[50])];
    let apps = vec![
        game_app(10, Some("Ten"), Some("Game")),
        game_app(99, Some("Not first in its package"), Some("Game")),
        game_app(20, Some("Twenty"), Some("game")),
        game_app(30, Some("Tool"), Some("Tool")),
        game_app(40, None, Some("Game")),
        game_app(50, Some("No kind"), None),
        game_app(60, Some("Not owned"), Some("Game")),
        game_app(20, Some("Twenty again"), Some("GAME")),
    ];
    let games = SteamGame::from(&apps, &packages).unwrap();
    let listed: Vec<(u32, &str)> = games.iter().map(|g| (g.id, g.title.as_str())).collect();
    assert_eq!(listed, vec![(10, "Ten"), (20, "Twenty")]);
    assert!(games.iter().all(|g| g.logo.is_none() && !g.installed));
}

#[test]
fn games_need_ids_everywhere() {
    let packages = vec![package(1, &[10])];
    let no_id = app(10, map(vec![("appinfo", Property::Table(map(vec![("common", Property::Table(PropertyMap::new()))])))]));
    assert!(SteamGame::from(&vec![game_app(10, Some("Ten"), Some("Game")), no_id], &packages).is_none());
    let unowned_no_id = app(11, PropertyMap::new());
    assert!(SteamGame::from(&vec![unowned_no_id], &packages).is_none());
    assert!(SteamGame::from(&vec![game_app(10, Some("Ten"), Some("Game"))], &vec![package(1, &[])]).is_none());
    assert_eq!(SteamGame::from(&Vec::new(), &Vec::new()).unwrap().len(), 0);
}

#[test]
fn games_from_decoded_caches() {
    let mut tree = vec![0x00];
    tree.extend(b"appinfo\0");
    tree.push(0x02);
    tree.extend(b"appid\0");
    tree.extend(440u32.to_le_bytes());
    tree.push(0x00);
    tree.extend(b"common\0");
    tree.push(0x01);
    tree.extend(b"name\0Team Fortress 2\0");
    tree.push(0x01);
    tree.extend(b"type\0Game\0");
    tree.extend([0x08, 0x08, 0x08]);
    let mut body = vec![0u8; 40];
    body.extend(tree);
    let info = parse_app_info(440, &body).unwrap();
    let games = SteamGame::from(&vec![info], &vec![package(7, &[440])]).unwrap();
    assert_eq!(games.len(), 1);
    assert_eq!(games[0].id, 440);
    assert_eq!(games[0].title, "Team Fortress 2");
}
