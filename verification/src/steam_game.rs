use vstd::prelude::*;
use vstd::string::StringExecFns;
use crate::app_info::app_records_of;
use crate::app_info::AppInfo;
use crate::app_info::AppRecord;
use crate::package_info::package_records_of;
use crate::package_info::PackageInfo;
use crate::package_info::PackageRecord;
use crate::property::str_eq;
use crate::property::Table;
use crate::query::as_text;
use crate::query::as_uint32;
use crate::query::keys_of;
use crate::query::value_at;
use crate::render::decimal;
use crate::render::decimal_string;

verus! {

/// A game of the library, as the list of games shows it.
#[derive(Debug)]
pub struct SteamGame {
    pub id: u32,
    pub title: String,
    pub logo: Option<String>,
    pub installed: bool,
}

/// What a game holds, apart from how it is stored.
pub struct Game {
    pub id: u32,
    pub title: Seq<char>,
    pub logo: Option<Seq<char>>,
    pub installed: bool,
}

impl View for SteamGame {
    type V = Game;

    open spec fn view(&self) -> Game {
        Game {
            id: self.id,
            title: self.title@,
            logo: match self.logo {
                Some(path) => Some(path@),
                None => None,
            },
            installed: self.installed,
        }
    }
}

/// The application that a package names first: the number at
/// `appids` / `0`.
pub open spec fn first_app(props: Table) -> Option<u32> {
    as_uint32(value_at(props, seq!["appids"@, "0"@]))
}

/// The id that an application record gives itself: the number at
/// `appinfo` / `appid`.
pub open spec fn app_id(props: Table) -> Option<u32> {
    as_uint32(value_at(props, seq!["appinfo"@, "appid"@]))
}

/// The name of an application: the text at `appinfo` / `common` / `name`.
pub open spec fn app_name(props: Table) -> Option<Seq<char>> {
    as_text(value_at(props, seq!["appinfo"@, "common"@, "name"@]))
}

/// The kind of an application: the text at `appinfo` / `common` / `type`.
pub open spec fn app_kind(props: Table) -> Option<Seq<char>> {
    as_text(value_at(props, seq!["appinfo"@, "common"@, "type"@]))
}

/// Whether an application is listed as a game: one of the packages names
/// it, it has a name, and its kind is `Game` or `game`.
pub open spec fn is_game(props: Table, owned: Seq<u32>) -> bool {
    &&& app_id(props) matches Some(id) && owned.contains(id)
    &&& app_name(props) is Some
    &&& (app_kind(props) == Some("Game"@) || app_kind(props) == Some("game"@))
}

/// The applications that the packages name first, package by package, or
/// nothing where a package names none.
pub open spec fn owned_of(packages: Seq<PackageRecord>) -> Option<Seq<u32>>
    decreases packages.len(),
{
    if packages.len() == 0 {
        Some(Seq::empty())
    } else {
        match (owned_of(packages.drop_last()), first_app(packages.last().props)) {
            (Some(front), Some(id)) => Some(front.push(id)),
            _ => None,
        }
    }
}

/// The games among the applications, in the order of the records, or
/// nothing where a record gives itself no id. No logo is known of a game
/// yet, and none is known to be installed.
pub open spec fn games_of(apps: Seq<AppRecord>, owned: Seq<u32>) -> Option<Seq<Game>>
    decreases apps.len(),
{
    if apps.len() == 0 {
        Some(Seq::empty())
    } else {
        let props = apps.last().props;
        match (games_of(apps.drop_last(), owned), app_id(props)) {
            (Some(front), Some(id)) => if is_game(props, owned) {
                Some(
                    front.push(
                        Game { id, title: app_name(props)->0, logo: None, installed: false },
                    ),
                )
            } else {
                Some(front)
            },
            _ => None,
        }
    }
}

/// The games of a library: the games among the applications that the
/// packages name first, or nothing where a package names no application
/// or an application record gives itself no id.
pub open spec fn library_of(apps: Seq<AppRecord>, packages: Seq<PackageRecord>) -> Option<
    Seq<Game>,
> {
    match owned_of(packages) {
        Some(owned) => games_of(apps, owned),
        None => None,
    }
}

/// The games that a list of games stands for.
pub open spec fn games_in(games: Seq<SteamGame>) -> Seq<Game> {
    Seq::new(games.len(), |i: int| games[i]@)
}

/// The name of the file that holds the logo of an application.
pub open spec fn logo_name(id: u32) -> Seq<char> {
    decimal(id as nat) + "_library_600x900.jpg"@
}

/// The name of the file that says that an application is installed.
pub open spec fn manifest_name(id: u32) -> Seq<char> {
    "appmanifest_"@ + decimal(id as nat) + ".acf"@
}

/// Whether `id` is among `ids`.
fn contains_id(ids: &Vec<u32>, id: u32) -> (r: bool)
    ensures
        r == ids@.contains(id),
{
    let mut i: usize = 0;
    while i < ids.len()
        invariant
            i <= ids@.len(),
            forall|k: int| 0 <= k < i ==> ids@[k] != id,
        decreases ids@.len() - i,
    {
        if ids[i] == id {
            return true;
        }
        i = i + 1;
    }
    false
}

/// The applications that the packages name first, or nothing where a
/// package has no number at `appids` / `0`.
pub fn owned_games(pkg_infos: &Vec<PackageInfo>) -> (r: Option<Vec<u32>>)
    ensures
        match r {
            Some(ids) => owned_of(package_records_of(pkg_infos@)) == Some(ids@),
            None => owned_of(package_records_of(pkg_infos@)) is None,
        },
{
    let ghost all = package_records_of(pkg_infos@);
    let mut owned: Vec<u32> = Vec::new();
    let mut i: usize = 0;
    assert(all.take(0) =~= Seq::empty());
    while i < pkg_infos.len()
        invariant
            i <= pkg_infos@.len(),
            all == package_records_of(pkg_infos@),
            owned_of(all.take(i as int)) == Some(owned@),
        decreases pkg_infos@.len() - i,
    {
        let path = ["appids", "0"];
        assert(keys_of(path@) =~= seq!["appids"@, "0"@]);
        let found = pkg_infos[i].u32_entry(&path);
        proof {
            let upto = all.take(i + 1);
            assert(upto.drop_last() =~= all.take(i as int));
            assert(upto.last() == pkg_infos@[i as int]@);
            if found is None {
                none_stays_none(all, i + 1);
            }
        }
        match found {
            Some(id) => {
                owned.push(id);
            },
            None => {
                return None;
            },
        }
        i = i + 1;
    }
    assert(all.take(i as int) =~= all);
    Some(owned)
}

/// Where the packages up to some place name no first application, all of
/// them together do not either.
proof fn none_stays_none(packages: Seq<PackageRecord>, upto: int)
    requires
        0 <= upto <= packages.len(),
        owned_of(packages.take(upto)) is None,
    ensures
        owned_of(packages) is None,
    decreases packages.len() - upto,
{
    if upto < packages.len() {
        let next = packages.take(upto + 1);
        assert(next.drop_last() =~= packages.take(upto));
        none_stays_none(packages, upto + 1);
    } else {
        assert(packages.take(upto) =~= packages);
    }
}

/// Where the records up to some place hold one without an id, all of them
/// together do too.
proof fn no_games_stays(apps: Seq<AppRecord>, owned: Seq<u32>, upto: int)
    requires
        0 <= upto <= apps.len(),
        games_of(apps.take(upto), owned) is None,
    ensures
        games_of(apps, owned) is None,
    decreases apps.len() - upto,
{
    if upto < apps.len() {
        let next = apps.take(upto + 1);
        assert(next.drop_last() =~= apps.take(upto));
        no_games_stays(apps, owned, upto + 1);
    } else {
        assert(apps.take(upto) =~= apps);
    }
}

/// The name of the file that holds the logo of the application `id`.
pub fn logo_file_name(id: u32) -> (r: String)
    ensures
        r@ == logo_name(id),
{
    let mut name = decimal_string(id as u64);
    name.append("_library_600x900.jpg");
    name
}

/// The name of the file that says that the application `id` is installed.
pub fn manifest_file_name(id: u32) -> (r: String)
    ensures
        r@ == manifest_name(id),
{
    let mut name = "appmanifest_".to_owned();
    name.append(decimal_string(id as u64).as_str());
    name.append(".acf");
    name
}

impl SteamGame {
    /// The games among the applications: those that a package names
    /// first, that have a name, and whose kind is `Game` or `game`, in the
    /// order of the records. Nothing is returned where a package names no
    /// application or a record gives itself no id. The games come without
    /// a logo and as not installed: both are for the caller to find out.
    pub fn from(app_infos: &Vec<AppInfo>, pkg_infos: &Vec<PackageInfo>) -> (r: Option<
        Vec<SteamGame>,
    >)
        ensures
            match r {
                Some(games) => library_of(
                    app_records_of(app_infos@),
                    package_records_of(pkg_infos@),
                ) == Some(games_in(games@)),
                None => library_of(app_records_of(app_infos@), package_records_of(pkg_infos@))
                    is None,
            },
    {
        let owned = match owned_games(pkg_infos) {
            Some(owned) => owned,
            None => {
                return None;
            },
        };
        let ghost all = app_records_of(app_infos@);
        let mut games: Vec<SteamGame> = Vec::new();
        let mut i: usize = 0;
        assert(all.take(0) =~= Seq::empty());
        assert(games_in(games@) =~= Seq::empty());
        while i < app_infos.len()
            invariant
                i <= app_infos@.len(),
                all == app_records_of(app_infos@),
                owned_of(package_records_of(pkg_infos@)) == Some(owned@),
                games_of(all.take(i as int), owned@) == Some(games_in(games@)),
            decreases app_infos@.len() - i,
        {
            let info = &app_infos[i];
            let id_path = ["appinfo", "appid"];
            let name_path = ["appinfo", "common", "name"];
            let kind_path = ["appinfo", "common", "type"];
            assert(keys_of(id_path@) =~= seq!["appinfo"@, "appid"@]);
            assert(keys_of(name_path@) =~= seq!["appinfo"@, "common"@, "name"@]);
            assert(keys_of(kind_path@) =~= seq!["appinfo"@, "common"@, "type"@]);
            let ghost done = games_in(games@);
            proof {
                let upto = all.take(i + 1);
                assert(upto.drop_last() =~= all.take(i as int));
                assert(upto.last() == info@);
            }
            let id = match info.u32_entry(&id_path) {
                Some(id) => id,
                None => {
                    proof {
                        no_games_stays(all, owned@, i + 1);
                    }
                    return None;
                },
            };
            if contains_id(&owned, id) {
                match (info.string_entry(&name_path), info.string_entry(&kind_path)) {
                    (Some(title), Some(kind)) => {
                        if str_eq(kind.as_str(), "Game") || str_eq(kind.as_str(), "game") {
                            let game = SteamGame { id, title, logo: None, installed: false };
                            assert(games_in(games@.push(game)) =~= done.push(game@));
                            games.push(game);
                        }
                    },
                    _ => {},
                }
            }
            i = i + 1;
        }
        assert(all.take(i as int) =~= all);
        Some(games)
    }
}

} // verus!
