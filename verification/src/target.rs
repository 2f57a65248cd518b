//! What can be cleaned: the groups, the target IDs and the cache locations.

use crate::path::{join_path, joined};
use crate::text::{concat2, str_eq, texts};
use vstd::prelude::*;

verus! {

/// A group of clean targets.
#[derive(Clone, Copy, Debug, PartialEq, Eq, Structural)]
pub enum TargetGroup {
    Caches,
    Projects,
    Docker,
}

impl TargetGroup {
    /// The text by which the group is selected.
    pub open spec fn id_text(self) -> Seq<char> {
        match self {
            TargetGroup::Caches => "caches"@,
            TargetGroup::Projects => "projects"@,
            TargetGroup::Docker => "docker"@,
        }
    }

    /// The text by which the group is selected.
    pub fn id(self) -> (r: &'static str)
        ensures
            r@ == self.id_text(),
    {
        match self {
            TargetGroup::Caches => "caches",
            TargetGroup::Projects => "projects",
            TargetGroup::Docker => "docker",
        }
    }
}

/// A place that is scanned as a whole.
#[derive(Debug)]
pub struct Category {
    /// The target ID.
    pub id: &'static str,
    /// The name that is shown.
    pub name: &'static str,
    /// The directory.
    pub path: String,
    /// Whether its contents may be cleaned.
    pub safe_to_delete: bool,
}

/// What a category stands for.
pub struct CategoryView {
    pub id: Seq<char>,
    pub name: Seq<char>,
    pub path: Seq<char>,
    pub safe_to_delete: bool,
}

impl View for Category {
    type V = CategoryView;

    open spec fn view(&self) -> CategoryView {
        CategoryView {
            id: self.id@,
            name: self.name@,
            path: self.path@,
            safe_to_delete: self.safe_to_delete,
        }
    }
}

/// The texts of a list of literals.
pub open spec fn strs(list: Seq<&'static str>) -> Seq<Seq<char>> {
    list.map_values(|s: &'static str| s@)
}

/// A category in the home directory.
pub open spec fn category_at(
    home: Seq<char>,
    id: Seq<char>,
    name: Seq<char>,
    path: Seq<char>,
    safe_to_delete: bool,
) -> CategoryView {
    CategoryView { id, name, path: joined(home, path), safe_to_delete }
}

/// The places that are scanned as a whole, in the order in which they are.
pub open spec fn categories_of(home: Seq<char>) -> Seq<CategoryView> {
    seq![
        category_at(home, "system-caches"@, "System Caches"@, "Library/Caches"@, true),
        category_at(home, "app-logs"@, "App Logs"@, "Library/Logs"@, true),
        category_at(home, "trash"@, "Trash"@, ".Trash"@, true),
        category_at(
            home,
            "xcode-deriveddata"@,
            "Xcode DerivedData"@,
            "Library/Developer/Xcode/DerivedData"@,
            true,
        ),
        category_at(
            home,
            "xcode-archives"@,
            "Xcode Archives"@,
            "Library/Developer/Xcode/Archives"@,
            false,
        ),
        category_at(
            home,
            "ios-simulators"@,
            "iOS Simulators"@,
            "Library/Developer/CoreSimulator/Devices"@,
            false,
        ),
        category_at(home, "npm-cache"@, "npm Cache"@, ".npm"@, true),
        category_at(home, "yarn-cache"@, "Yarn Cache"@, ".yarn"@, true),
        category_at(home, "pnpm-cache"@, "pnpm Cache"@, "Library/pnpm"@, true),
        category_at(home, "pip-cache"@, "pip Cache"@, ".cache/pip"@, true),
        category_at(home, "uv-cache"@, "uv Cache"@, ".cache/uv"@, true),
        category_at(
            home,
            "homebrew-cache"@,
            "Homebrew Cache"@,
            "Library/Caches/Homebrew"@,
            true,
        ),
        category_at(home, "gradle-cache"@, "Gradle Cache"@, ".gradle/caches"@, true),
        category_at(home, "maven-cache"@, "Maven Cache"@, ".m2/repository"@, true),
        category_at(
            home,
            "cocoapods-cache"@,
            "CocoaPods Cache"@,
            "Library/Caches/CocoaPods"@,
            true,
        ),
        category_at(home, "cargo-cache"@, "Cargo Cache"@, ".cargo/registry"@, true),
    ]
}

/// The IDs of the targets that can be cleaned.
pub open spec fn target_id_texts() -> Seq<Seq<char>> {
    seq![
        "system-caches"@,
        "app-logs"@,
        "trash"@,
        "xcode-deriveddata"@,
        "npm-cache"@,
        "yarn-cache"@,
        "pnpm-cache"@,
        "pip-cache"@,
        "uv-cache"@,
        "homebrew-cache"@,
        "gradle-cache"@,
        "maven-cache"@,
        "cocoapods-cache"@,
        "cargo-cache"@,
        "node-modules"@,
        "python-venvs"@,
        "pycache"@,
        "docker-images"@,
        "docker-containers"@,
        "docker-build-cache"@,
        "docker-volumes"@,
    ]
}

/// The groups that can be cleaned, with the one that holds every target.
pub open spec fn group_texts() -> Seq<Seq<char>> {
    seq!["all"@, "caches"@, "projects"@, "docker"@]
}

/// `token` names a group or a target.
pub open spec fn known_target(token: Seq<char>) -> bool {
    group_texts().contains(token) || target_id_texts().contains(token)
}

/// One category.
fn category(
    home: &str,
    id: &'static str,
    name: &'static str,
    path: &str,
    safe_to_delete: bool,
) -> (r: Category)
    ensures
        r@ == category_at(home@, id@, name@, path@, safe_to_delete),
{
    Category { id, name, path: join_path(home, path), safe_to_delete }
}

/// The places that are scanned as a whole.
pub fn get_categories(home: &str) -> (r: Vec<Category>)
    ensures
        r@.map_values(|c: Category| c@) == categories_of(home@),
{
    let mut out: Vec<Category> = Vec::new();
    out.push(category(home, "system-caches", "System Caches", "Library/Caches", true));
    out.push(category(home, "app-logs", "App Logs", "Library/Logs", true));
    out.push(category(home, "trash", "Trash", ".Trash", true));
    out.push(
        category(
            home,
            "xcode-deriveddata",
            "Xcode DerivedData",
            "Library/Developer/Xcode/DerivedData",
            true,
        ),
    );
    out.push(
        category(
            home,
            "xcode-archives",
            "Xcode Archives",
            "Library/Developer/Xcode/Archives",
            false,
        ),
    );
    out.push(
        category(
            home,
            "ios-simulators",
            "iOS Simulators",
            "Library/Developer/CoreSimulator/Devices",
            false,
        ),
    );
    out.push(category(home, "npm-cache", "npm Cache", ".npm", true));
    out.push(category(home, "yarn-cache", "Yarn Cache", ".yarn", true));
    out.push(category(home, "pnpm-cache", "pnpm Cache", "Library/pnpm", true));
    out.push(category(home, "pip-cache", "pip Cache", ".cache/pip", true));
    out.push(category(home, "uv-cache", "uv Cache", ".cache/uv", true));
    out.push(
        category(home, "homebrew-cache", "Homebrew Cache", "Library/Caches/Homebrew", true),
    );
    out.push(category(home, "gradle-cache", "Gradle Cache", ".gradle/caches", true));
    out.push(category(home, "maven-cache", "Maven Cache", ".m2/repository", true));
    out.push(
        category(home, "cocoapods-cache", "CocoaPods Cache", "Library/Caches/CocoaPods", true),
    );
    out.push(category(home, "cargo-cache", "Cargo Cache", ".cargo/registry", true));
    assert(out@.map_values(|c: Category| c@) =~= categories_of(home@));
    out
}

/// The IDs of the targets that can be cleaned.
pub fn target_ids() -> (r: Vec<&'static str>)
    ensures
        strs(r@) == target_id_texts(),
{
    let out: Vec<&'static str> = vec![
        "system-caches",
        "app-logs",
        "trash",
        "xcode-deriveddata",
        "npm-cache",
        "yarn-cache",
        "pnpm-cache",
        "pip-cache",
        "uv-cache",
        "homebrew-cache",
        "gradle-cache",
        "maven-cache",
        "cocoapods-cache",
        "cargo-cache",
        "node-modules",
        "python-venvs",
        "pycache",
        "docker-images",
        "docker-containers",
        "docker-build-cache",
        "docker-volumes",
    ];
    assert(strs(out@) =~= target_id_texts());
    out
}

/// The groups that can be cleaned.
fn group_ids() -> (r: Vec<&'static str>)
    ensures
        strs(r@) == group_texts(),
{
    let out: Vec<&'static str> = vec!["all", "caches", "projects", "docker"];
    assert(strs(out@) =~= group_texts());
    out
}

/// Whether some literal of `list` is the text `s`.
fn holds_str(list: &[&'static str], s: &str) -> (r: bool)
    ensures
        r == strs(list@).contains(s@),
{
    for i in 0..list.len()
        invariant
            forall|j: int| 0 <= j < i ==> list@[j]@ != s@,
    {
        if str_eq(list[i], s) {
            assert(strs(list@)[i as int] == s@);
            return true;
        }
    }
    assert forall|j: int| 0 <= j < strs(list@).len() implies strs(list@)[j] != s@ by {
        assert(list@[j]@ != s@);
    }
    false
}

/// Whether `token` names a group or a target.
pub fn is_known_target(token: &str) -> (r: bool)
    ensures
        r == known_target(token@),
{
    let groups = group_ids();
    let ids = target_ids();
    holds_str(groups.as_slice(), token) || holds_str(ids.as_slice(), token)
}

/// The lines that list the groups and the targets.
pub open spec fn target_reference_texts() -> Seq<Seq<char>> {
    seq!["Groups:"@] + group_texts().map_values(|s: Seq<char>| "  "@ + s) + seq![
        ""@,
        "Target IDs:"@,
    ] + target_id_texts().map_values(|s: Seq<char>| "  "@ + s)
}

/// Appends each text of `list`, indented.
fn push_indented(out: &mut Vec<String>, list: &[&'static str])
    ensures
        texts(final(out)@) == texts(old(out)@) + strs(list@).map_values(
            |s: Seq<char>| "  "@ + s,
        ),
{
    let ghost before = texts(out@);
    let ghost lines = strs(list@).map_values(|s: Seq<char>| "  "@ + s);
    assert(texts(out@) =~= before + lines.take(0));
    for i in 0..list.len()
        invariant
            lines == strs(list@).map_values(|s: Seq<char>| "  "@ + s),
            texts(out@) == before + lines.take(i as int),
    {
        let ghost here = out@;
        out.push(concat2("  ", list[i]));
        assert(texts(out@) =~= texts(here).push(lines[i as int]));
        assert(lines.take(i + 1) =~= lines.take(i as int).push(lines[i as int]));
    }
    assert(lines.take(list@.len() as int) =~= lines);
}

/// The lines that list the groups and the targets.
pub fn print_target_reference() -> (r: Vec<String>)
    ensures
        texts(r@) == target_reference_texts(),
{
    let groups = group_ids();
    let ids = target_ids();
    let mut out: Vec<String> = Vec::new();
    out.push("Groups:".to_owned());
    assert(texts(out@) =~= seq!["Groups:"@]);
    push_indented(&mut out, groups.as_slice());
    let ghost before = out@;
    out.push("".to_owned());
    out.push("Target IDs:".to_owned());
    assert(texts(out@) =~= texts(before) + seq![""@, "Target IDs:"@]);
    push_indented(&mut out, ids.as_slice());
    out
}

/// A category whose contents may be cleaned is a known target.
pub proof fn law_cleanable_category_is_target(home: Seq<char>, i: int)
    requires
        0 <= i < categories_of(home).len(),
        categories_of(home)[i].safe_to_delete,
    ensures
        target_id_texts().contains(categories_of(home)[i].id),
        known_target(categories_of(home)[i].id),
{
    let ids = target_id_texts();
    let k = if i < 4 {
        i
    } else {
        i - 2
    };
    assert(ids[k] == categories_of(home)[i].id);
}

/// The target IDs, then the groups, then the categories that are only shown.
spec fn all_names() -> Seq<Seq<char>> {
    target_id_texts() + group_texts() + seq!["xcode-archives"@, "ios-simulators"@]
}

/// All these names differ.
proof fn lemma_names_differ(i: int, j: int)
    requires
        0 <= i < all_names().len(),
        0 <= j < all_names().len(),
        i != j,
    ensures
        all_names()[i] != all_names()[j],
{
    reveal_strlit("system-caches");
    reveal_strlit("app-logs");
    reveal_strlit("trash");
    reveal_strlit("xcode-deriveddata");
    reveal_strlit("npm-cache");
    reveal_strlit("yarn-cache");
    reveal_strlit("pnpm-cache");
    reveal_strlit("pip-cache");
    reveal_strlit("uv-cache");
    reveal_strlit("homebrew-cache");
    reveal_strlit("gradle-cache");
    reveal_strlit("maven-cache");
    reveal_strlit("cocoapods-cache");
    reveal_strlit("cargo-cache");
    reveal_strlit("node-modules");
    reveal_strlit("python-venvs");
    reveal_strlit("pycache");
    reveal_strlit("docker-images");
    reveal_strlit("docker-containers");
    reveal_strlit("docker-build-cache");
    reveal_strlit("docker-volumes");
    reveal_strlit("all");
    reveal_strlit("caches");
    reveal_strlit("projects");
    reveal_strlit("docker");
    reveal_strlit("xcode-archives");
    reveal_strlit("ios-simulators");
    let a = all_names()[i];
    let b = all_names()[j];
    assert(a.len() != b.len() || a[0] != b[0]);
}

/// A category whose contents may not be cleaned is no target.
pub proof fn law_kept_category_is_no_target(home: Seq<char>, i: int)
    requires
        0 <= i < categories_of(home).len(),
        !categories_of(home)[i].safe_to_delete,
    ensures
        !known_target(categories_of(home)[i].id),
{
    let names = all_names();
    let ids = target_id_texts();
    let groups = group_texts();
    assert(i == 4 || i == 5);
    let at = ids.len() + groups.len() + i - 4;
    assert(names[at] == categories_of(home)[i].id);
    assert forall|j: int| 0 <= j < ids.len() implies ids[j] != names[at] by {
        lemma_names_differ(j, at);
    }
    assert forall|j: int| 0 <= j < groups.len() implies groups[j] != names[at] by {
        lemma_names_differ(ids.len() + j, at);
    }
}

/// No target ID is there twice, and none is the name of a group.
pub proof fn law_target_ids_distinct(i: int, j: int)
    requires
        0 <= i < target_id_texts().len(),
    ensures
        0 <= j < target_id_texts().len() && i != j ==> target_id_texts()[i]
            != target_id_texts()[j],
        !group_texts().contains(target_id_texts()[i]),
{
    let ids = target_id_texts();
    let groups = group_texts();
    if 0 <= j < ids.len() && i != j {
        lemma_names_differ(i, j);
    }
    assert forall|k: int| 0 <= k < groups.len() implies groups[k] != ids[i] by {
        lemma_names_differ(i, ids.len() + k);
    }
}

/// The category with this ID and name lies at `place` in the home directory.
pub open spec fn lies_at(
    category: CategoryView,
    home: Seq<char>,
    id: Seq<char>,
    name: Seq<char>,
    place: Seq<char>,
) -> bool {
    category.id == id && category.name == name && category.path == joined(home, place)
}

/// Where the categories lie: a place in the home directory is scanned as a whole if and only
/// if it is one of these, and all but the archives of Xcode and the simulators may be
/// cleaned.
pub proof fn law_categories(home: Seq<char>, category: CategoryView)
    ensures
        categories_of(home).contains(category) <==> {
            ||| category.safe_to_delete && {
                ||| lies_at(category, home, "system-caches"@, "System Caches"@, "Library/Caches"@)
                ||| lies_at(category, home, "app-logs"@, "App Logs"@, "Library/Logs"@)
                ||| lies_at(category, home, "trash"@, "Trash"@, ".Trash"@)
                ||| lies_at(
                    category,
                    home,
                    "xcode-deriveddata"@,
                    "Xcode DerivedData"@,
                    "Library/Developer/Xcode/DerivedData"@,
                )
                ||| lies_at(category, home, "npm-cache"@, "npm Cache"@, ".npm"@)
                ||| lies_at(category, home, "yarn-cache"@, "Yarn Cache"@, ".yarn"@)
                ||| lies_at(category, home, "pnpm-cache"@, "pnpm Cache"@, "Library/pnpm"@)
                ||| lies_at(category, home, "pip-cache"@, "pip Cache"@, ".cache/pip"@)
                ||| lies_at(category, home, "uv-cache"@, "uv Cache"@, ".cache/uv"@)
                ||| lies_at(
                    category,
                    home,
                    "homebrew-cache"@,
                    "Homebrew Cache"@,
                    "Library/Caches/Homebrew"@,
                )
                ||| lies_at(category, home, "gradle-cache"@, "Gradle Cache"@, ".gradle/caches"@)
                ||| lies_at(category, home, "maven-cache"@, "Maven Cache"@, ".m2/repository"@)
                ||| lies_at(
                    category,
                    home,
                    "cocoapods-cache"@,
                    "CocoaPods Cache"@,
                    "Library/Caches/CocoaPods"@,
                )
                ||| lies_at(category, home, "cargo-cache"@, "Cargo Cache"@, ".cargo/registry"@)
            }
            ||| !category.safe_to_delete && {
                ||| lies_at(
                    category,
                    home,
                    "xcode-archives"@,
                    "Xcode Archives"@,
                    "Library/Developer/Xcode/Archives"@,
                )
                ||| lies_at(
                    category,
                    home,
                    "ios-simulators"@,
                    "iOS Simulators"@,
                    "Library/Developer/CoreSimulator/Devices"@,
                )
            }
        },
        categories_of(home).len() == 16,
{
    let all = categories_of(home);
    assert(all[0].path == joined(home, "Library/Caches"@));
    assert(all[1].path == joined(home, "Library/Logs"@));
    assert(all[2].path == joined(home, ".Trash"@));
    assert(all[3].path == joined(home, "Library/Developer/Xcode/DerivedData"@));
    assert(all[4].path == joined(home, "Library/Developer/Xcode/Archives"@));
    assert(all[5].path == joined(home, "Library/Developer/CoreSimulator/Devices"@));
    assert(all[6].path == joined(home, ".npm"@));
    assert(all[7].path == joined(home, ".yarn"@));
    assert(all[8].path == joined(home, "Library/pnpm"@));
    assert(all[9].path == joined(home, ".cache/pip"@));
    assert(all[10].path == joined(home, ".cache/uv"@));
    assert(all[11].path == joined(home, "Library/Caches/Homebrew"@));
    assert(all[12].path == joined(home, ".gradle/caches"@));
    assert(all[13].path == joined(home, ".m2/repository"@));
    assert(all[14].path == joined(home, "Library/Caches/CocoaPods"@));
    assert(all[15].path == joined(home, ".cargo/registry"@));
}

/// The targets that can be named, and the groups.
pub proof fn law_targets(token: Seq<char>)
    ensures
        target_id_texts().contains(token) <==> {
            ||| token == "system-caches"@
            ||| token == "app-logs"@
            ||| token == "trash"@
            ||| token == "xcode-deriveddata"@
            ||| token == "npm-cache"@
            ||| token == "yarn-cache"@
            ||| token == "pnpm-cache"@
            ||| token == "pip-cache"@
            ||| token == "uv-cache"@
            ||| token == "homebrew-cache"@
            ||| token == "gradle-cache"@
            ||| token == "maven-cache"@
            ||| token == "cocoapods-cache"@
            ||| token == "cargo-cache"@
            ||| token == "node-modules"@
            ||| token == "python-venvs"@
            ||| token == "pycache"@
            ||| token == "docker-images"@
            ||| token == "docker-containers"@
            ||| token == "docker-build-cache"@
            ||| token == "docker-volumes"@
        },
        group_texts().contains(token) <==> token == "all"@ || token == "caches"@ || token
            == "projects"@ || token == "docker"@,
        known_target(token) <==> target_id_texts().contains(token) || group_texts().contains(token),
{
    let ids = target_id_texts();
    let groups = group_texts();
    assert(ids[0] == "system-caches"@);
    assert(ids[1] == "app-logs"@);
    assert(ids[2] == "trash"@);
    assert(ids[3] == "xcode-deriveddata"@);
    assert(ids[4] == "npm-cache"@);
    assert(ids[5] == "yarn-cache"@);
    assert(ids[6] == "pnpm-cache"@);
    assert(ids[7] == "pip-cache"@);
    assert(ids[8] == "uv-cache"@);
    assert(ids[9] == "homebrew-cache"@);
    assert(ids[10] == "gradle-cache"@);
    assert(ids[11] == "maven-cache"@);
    assert(ids[12] == "cocoapods-cache"@);
    assert(ids[13] == "cargo-cache"@);
    assert(ids[14] == "node-modules"@);
    assert(ids[15] == "python-venvs"@);
    assert(ids[16] == "pycache"@);
    assert(ids[17] == "docker-images"@);
    assert(ids[18] == "docker-containers"@);
    assert(ids[19] == "docker-build-cache"@);
    assert(ids[20] == "docker-volumes"@);
    assert(groups[0] == "all"@ && groups[1] == "caches"@ && groups[2] == "projects"@ && groups[3]
        == "docker"@);
}

/// The reference lists the groups and then the targets, each on a line of its own, indented.
pub proof fn law_target_reference(i: int)
    ensures
        ({
            let lines = target_reference_texts();
            &&& lines.len() == 28
            &&& lines[0] == "Groups:"@ && lines[5] == ""@ && lines[6] == "Target IDs:"@
            &&& 0 <= i < 4 ==> lines[1 + i] == "  "@ + group_texts()[i]
            &&& 0 <= i < 21 ==> lines[7 + i] == "  "@ + target_id_texts()[i]
        }),
{
}

} // verus!
