//! What can be cleaned after a scan, and how.

use crate::outside::{byte_size_display, byte_size_text};
use crate::scan::ScanResults;
use crate::target::{
    categories_of, known_target, law_cleanable_category_is_target, strs, target_id_texts, Category,
    TargetGroup,
};
use crate::text::{concat3, copy_texts, decimal, decimal_text, texts};
use vstd::prelude::*;

verus! {

/// How an item is cleaned.
#[derive(Debug)]
pub enum CleanAction {
    /// By deleting what a directory holds.
    DeleteContents { path: String, excludes: Vec<String> },
    /// By deleting what lies at each of some paths.
    DeletePaths { paths: Vec<String>, excludes: Vec<String> },
    /// By a Docker command.
    DockerPrune { resource: &'static str, args: Vec<&'static str> },
}

/// What an action stands for.
pub enum CleanActionView {
    DeleteContents { path: Seq<char>, excludes: Seq<Seq<char>> },
    DeletePaths { paths: Seq<Seq<char>>, excludes: Seq<Seq<char>> },
    DockerPrune { resource: Seq<char>, args: Seq<Seq<char>> },
}

impl View for CleanAction {
    type V = CleanActionView;

    open spec fn view(&self) -> CleanActionView {
        match *self {
            CleanAction::DeleteContents { path, excludes } => CleanActionView::DeleteContents {
                path: path@,
                excludes: texts(excludes@),
            },
            CleanAction::DeletePaths { paths, excludes } => CleanActionView::DeletePaths {
                paths: texts(paths@),
                excludes: texts(excludes@),
            },
            CleanAction::DockerPrune { resource, args } => CleanActionView::DockerPrune {
                resource: resource@,
                args: strs(args@),
            },
        }
    }
}

/// Something that can be cleaned.
#[derive(Debug)]
pub struct CleanableItem {
    /// The target ID.
    pub id: &'static str,
    pub group: TargetGroup,
    /// What is shown.
    pub label: String,
    /// The bytes that cleaning it frees, as far as the scan shows.
    pub size: u64,
    pub action: CleanAction,
}

/// What an item stands for.
pub struct ItemView {
    pub id: Seq<char>,
    pub group: TargetGroup,
    pub label: Seq<char>,
    pub size: u64,
    pub action: CleanActionView,
}

impl View for CleanableItem {
    type V = ItemView;

    open spec fn view(&self) -> ItemView {
        ItemView {
            id: self.id@,
            group: self.group,
            label: self.label@,
            size: self.size,
            action: self.action@,
        }
    }
}

/// What a list of items stands for.
pub open spec fn item_views(items: Seq<CleanableItem>) -> Seq<ItemView> {
    items.map_values(|item: CleanableItem| item@)
}

/// The label of something with a size.
pub open spec fn sized_label(name: Seq<char>, size: Seq<char>) -> Seq<char> {
    name + " ("@ + size + ")"@
}

/// The label of a number of directories with their size.
pub open spec fn collection_label(label: Seq<char>, dirs: nat, size: Seq<char>) -> Seq<char> {
    label + " - "@ + decimal_text(dirs) + " dirs ("@ + size + ")"@
}

/// The item for a category, if its contents may be cleaned.
pub open spec fn category_item(
    sized: (Category, u64),
    excludes: Seq<Seq<char>>,
) -> Option<ItemView> {
    if sized.0.safe_to_delete {
        Some(
            ItemView {
                id: sized.0.id@,
                group: TargetGroup::Caches,
                label: sized_label(sized.0.name@, byte_size_display(sized.1)),
                size: sized.1,
                action: CleanActionView::DeleteContents { path: sized.0.path@, excludes },
            },
        )
    } else {
        None
    }
}

/// The paths of a list of sized paths.
pub open spec fn paths_of(entries: Seq<(String, u64)>) -> Seq<Seq<char>> {
    entries.map_values(|entry: (String, u64)| entry.0@)
}

/// The item for a collection of directories, unless they hold nothing.
pub open spec fn collection_items(
    id: Seq<char>,
    group: TargetGroup,
    label: Seq<char>,
    entries: Seq<(String, u64)>,
    total: u64,
    excludes: Seq<Seq<char>>,
) -> Seq<ItemView> {
    if total == 0 {
        Seq::empty()
    } else {
        seq![
            ItemView {
                id,
                group,
                label: collection_label(label, entries.len(), byte_size_display(total)),
                size: total,
                action: CleanActionView::DeletePaths { paths: paths_of(entries), excludes },
            },
        ]
    }
}

/// The item for a kind of Docker resource, unless there is nothing to free.
pub open spec fn docker_items(
    id: Seq<char>,
    label: Seq<char>,
    size: u64,
    resource: Seq<char>,
    args: Seq<Seq<char>>,
) -> Seq<ItemView> {
    if size == 0 {
        Seq::empty()
    } else {
        seq![
            ItemView {
                id,
                group: TargetGroup::Docker,
                label: sized_label(label, byte_size_display(size)),
                size,
                action: CleanActionView::DockerPrune { resource, args },
            },
        ]
    }
}

/// The items for the categories.
pub open spec fn cache_items(
    sized: Seq<(Category, u64)>,
    excludes: Seq<Seq<char>>,
) -> Seq<ItemView> {
    sized.filter_map(|sized: (Category, u64)| category_item(sized, excludes))
}

/// The items for the directories found in projects.
pub open spec fn project_items(results: ScanResults, excludes: Seq<Seq<char>>) -> Seq<ItemView> {
    collection_items(
        "node-modules"@,
        TargetGroup::Projects,
        "node_modules"@,
        results.node_modules@,
        results.node_modules_total,
        excludes,
    ) + collection_items(
        "python-venvs"@,
        TargetGroup::Projects,
        "Python venvs"@,
        results.venvs@,
        results.venvs_total,
        excludes,
    ) + collection_items(
        "pycache"@,
        TargetGroup::Projects,
        "__pycache__"@,
        results.pycaches@,
        results.pycache_total,
        excludes,
    )
}

/// The items for Docker, if it is there. Only unused resources are pruned.
pub open spec fn all_docker_items(results: ScanResults) -> Seq<ItemView> {
    if results.docker.available {
        docker_items(
            "docker-images"@,
            "Docker images"@,
            results.docker.images,
            "image"@,
            seq!["image"@, "prune"@, "-af"@],
        ) + docker_items(
            "docker-containers"@,
            "Docker containers"@,
            results.docker.containers,
            "container"@,
            seq!["container"@, "prune"@, "-f"@],
        ) + docker_items(
            "docker-build-cache"@,
            "Docker build cache"@,
            results.docker.build_cache,
            "builder"@,
            seq!["builder"@, "prune"@, "-af"@],
        ) + docker_items(
            "docker-volumes"@,
            "Docker volumes"@,
            results.docker.volumes,
            "volume"@,
            seq!["volume"@, "prune"@, "-af"@],
        )
    } else {
        Seq::empty()
    }
}

/// Everything that can be cleaned after a scan: caches, projects, Docker.
pub open spec fn cleanable_of(results: ScanResults, excludes: Seq<Seq<char>>) -> Seq<ItemView> {
    cache_items(results.category_sizes@, excludes) + project_items(results, excludes)
        + all_docker_items(results)
}

/// The label of something with a size.
pub fn label_with_size(name: &str, size: &str) -> (r: String)
    ensures
        r@ == sized_label(name@, size@),
{
    let mut label = concat3(name, " (", size);
    label.append(")");
    label
}

/// The label of a number of directories with their size.
pub fn label_with_dirs(label: &str, dirs: usize, size: &str) -> (r: String)
    ensures
        r@ == collection_label(label@, dirs as nat, size@),
{
    let count = decimal(dirs as u64);
    let mut text = concat3(label, " - ", count.as_str());
    text.append(" dirs (");
    text.append(size);
    text.append(")");
    text
}

/// Appends the item for a collection of directories, unless they hold nothing.
pub fn push_path_collection(
    cleanable: &mut Vec<CleanableItem>,
    id: &'static str,
    group: TargetGroup,
    label: &str,
    paths: &[(String, u64)],
    total: u64,
    excludes: &[String],
)
    ensures
        item_views(final(cleanable)@) == item_views(old(cleanable)@) + collection_items(
            id@,
            group,
            label@,
            paths@,
            total,
            texts(excludes@),
        ),
{
    let ghost before = cleanable@;
    if total == 0 {
        assert(item_views(before) =~= item_views(before) + Seq::empty());
        return;
    }
    let mut all: Vec<String> = Vec::new();
    for i in 0..paths.len()
        invariant
            all@.len() == i,
            forall|j: int| 0 <= j < i ==> (#[trigger] all@[j])@ == paths@[j].0@,
    {
        all.push(paths[i].0.clone());
    }
    assert(texts(all@) =~= paths_of(paths@));
    let size = byte_size_text(total);
    let item = CleanableItem {
        id,
        group,
        label: label_with_dirs(label, all.len(), size.as_str()),
        size: total,
        action: CleanAction::DeletePaths { paths: all, excludes: copy_texts(excludes) },
    };
    cleanable.push(item);
    assert(item_views(cleanable@) =~= item_views(before) + seq![item@]);
}

/// Appends the item for a kind of Docker resource, unless there is nothing to
/// free.
pub fn push_docker_item(
    cleanable: &mut Vec<CleanableItem>,
    id: &'static str,
    label: &str,
    size: u64,
    resource: &'static str,
    args: Vec<&'static str>,
)
    ensures
        item_views(final(cleanable)@) == item_views(old(cleanable)@) + docker_items(
            id@,
            label@,
            size,
            resource@,
            strs(args@),
        ),
{
    let ghost before = cleanable@;
    if size == 0 {
        assert(item_views(before) =~= item_views(before) + Seq::empty());
        return;
    }
    let text = byte_size_text(size);
    let item = CleanableItem {
        id,
        group: TargetGroup::Docker,
        label: label_with_size(label, text.as_str()),
        size,
        action: CleanAction::DockerPrune { resource, args },
    };
    cleanable.push(item);
    assert(item_views(cleanable@) =~= item_views(before) + seq![item@]);
}

/// The arguments of a pruning command.
fn prune_args(resource: &'static str, flags: &'static str) -> (r: Vec<&'static str>)
    ensures
        strs(r@) == seq![resource@, "prune"@, flags@],
{
    let r: Vec<&'static str> = vec![resource, "prune", flags];
    assert(strs(r@) =~= seq![resource@, "prune"@, flags@]);
    r
}

/// Everything that can be cleaned after a scan.
pub fn build_cleanable_items(results: &ScanResults, excludes: &[String]) -> (r: Vec<CleanableItem>)
    ensures
        item_views(r@) == cleanable_of(*results, texts(excludes@)),
{
    let mut cleanable: Vec<CleanableItem> = Vec::new();
    let ghost all = results.category_sizes@;
    let ghost ex = texts(excludes@);
    let ghost read = |sized: (Category, u64)| category_item(sized, ex);
    assert(item_views(cleanable@) =~= all.take(0).filter_map(read));
    for i in 0..results.category_sizes.len()
        invariant
            all == results.category_sizes@,
            ex == texts(excludes@),
            read == (|sized: (Category, u64)| category_item(sized, ex)),
            item_views(cleanable@) == all.take(i as int).filter_map(read),
    {
        let ghost before = cleanable@;
        assert(all.take(i + 1).drop_last() =~= all.take(i as int));
        let (category, bytes) = &results.category_sizes[i];
        let size: u64 = *bytes;
        if category.safe_to_delete {
            let text = byte_size_text(size);
            let item = CleanableItem {
                id: category.id,
                group: TargetGroup::Caches,
                label: label_with_size(category.name, text.as_str()),
                size,
                action: CleanAction::DeleteContents {
                    path: category.path.clone(),
                    excludes: copy_texts(excludes),
                },
            };
            cleanable.push(item);
            assert(item_views(cleanable@) =~= item_views(before).push(item@));
            assert(read(all[i as int]) == Some(item@));
        } else {
            assert(read(all[i as int]) is None);
        }
    }
    assert(all.take(all.len() as int) =~= all);
    let ghost caches = item_views(cleanable@);
    push_path_collection(
        &mut cleanable,
        "node-modules",
        TargetGroup::Projects,
        "node_modules",
        results.node_modules.as_slice(),
        results.node_modules_total,
        excludes,
    );
    push_path_collection(
        &mut cleanable,
        "python-venvs",
        TargetGroup::Projects,
        "Python venvs",
        results.venvs.as_slice(),
        results.venvs_total,
        excludes,
    );
    push_path_collection(
        &mut cleanable,
        "pycache",
        TargetGroup::Projects,
        "__pycache__",
        results.pycaches.as_slice(),
        results.pycache_total,
        excludes,
    );
    assert(item_views(cleanable@) =~= caches + project_items(*results, ex));
    let ghost before = item_views(cleanable@);
    if results.docker.available {
        push_docker_item(
            &mut cleanable,
            "docker-images",
            "Docker images",
            results.docker.images,
            "image",
            prune_args("image", "-af"),
        );
        push_docker_item(
            &mut cleanable,
            "docker-containers",
            "Docker containers",
            results.docker.containers,
            "container",
            prune_args("container", "-f"),
        );
        push_docker_item(
            &mut cleanable,
            "docker-build-cache",
            "Docker build cache",
            results.docker.build_cache,
            "builder",
            prune_args("builder", "-af"),
        );
        push_docker_item(
            &mut cleanable,
            "docker-volumes",
            "Docker volumes",
            results.docker.volumes,
            "volume",
            prune_args("volume", "-af"),
        );
    }
    assert(item_views(cleanable@) =~= before + all_docker_items(*results));
    cleanable
}

proof fn lemma_cache_item(sized: Seq<(Category, u64)>, excludes: Seq<Seq<char>>, i: int)
    requires
        0 <= i < cache_items(sized, excludes).len(),
    ensures
        exists|j: int|
            0 <= j < sized.len() && category_item(#[trigger] sized[j], excludes) == Some(
                cache_items(sized, excludes)[i],
            ),
    decreases sized.len(),
{
    let read = |sized: (Category, u64)| category_item(sized, excludes);
    if sized.len() > 0 {
        let front = sized.drop_last();
        let before = cache_items(front, excludes);
        assert(before == front.filter_map(read));
        if i < before.len() {
            lemma_cache_item(front, excludes, i);
            let j = choose|j: int|
                0 <= j < front.len() && category_item(#[trigger] front[j], excludes) == Some(
                    before[i],
                );
            assert(category_item(sized[j], excludes) == Some(cache_items(sized, excludes)[i]));
        } else {
            assert(read(sized.last()) is Some);
            assert(category_item(sized[sized.len() - 1], excludes) == Some(
                cache_items(sized, excludes)[i],
            ));
        }
    }
}

/// What an item can be: one for a category that may be cleaned, one for directories
/// found in projects, or one for Docker where it is there.
pub proof fn law_item_origin(results: ScanResults, excludes: Seq<Seq<char>>, i: int)
    requires
        0 <= i < cleanable_of(results, excludes).len(),
    ensures
        match cleanable_of(results, excludes)[i].group {
            TargetGroup::Caches => exists|j: int|
                0 <= j < results.category_sizes@.len()
                    && results.category_sizes@[j].0.safe_to_delete && category_item(
                    #[trigger] results.category_sizes@[j],
                    excludes,
                ) == Some(cleanable_of(results, excludes)[i]),
            TargetGroup::Projects => project_items(results, excludes).contains(
                cleanable_of(results, excludes)[i],
            ),
            TargetGroup::Docker => results.docker.available && all_docker_items(results).contains(
                cleanable_of(results, excludes)[i],
            ),
        },
{
    let caches = cache_items(results.category_sizes@, excludes);
    let projects = project_items(results, excludes);
    let docker = all_docker_items(results);
    let item = cleanable_of(results, excludes)[i];
    if i < caches.len() {
        lemma_cache_item(results.category_sizes@, excludes, i);
        assert(item == caches[i]);
    } else if i < caches.len() + projects.len() {
        assert(item == projects[i - caches.len()]);
    } else {
        assert(item == docker[i - caches.len() - projects.len()]);
    }
}

/// A category that must be kept is never cleaned: no item deletes the contents of
/// a category unless that category may be cleaned.
pub proof fn law_kept_categories_not_cleanable(
    results: ScanResults,
    excludes: Seq<Seq<char>>,
    i: int,
)
    requires
        0 <= i < cleanable_of(results, excludes).len(),
        cleanable_of(results, excludes)[i].action is DeleteContents,
    ensures
        exists|j: int|
            0 <= j < results.category_sizes@.len() && (
            #[trigger] results.category_sizes@[j]).0.safe_to_delete
                && results.category_sizes@[j].0.path@
                == cleanable_of(results, excludes)[i].action->DeleteContents_path,
{
    law_item_origin(results, excludes, i);
    let j = choose|j: int|
        0 <= j < results.category_sizes@.len() && results.category_sizes@[j].0.safe_to_delete
            && category_item(#[trigger] results.category_sizes@[j], excludes) == Some(
            cleanable_of(results, excludes)[i],
        );
    assert(results.category_sizes@[j].0.safe_to_delete);
}

/// Every category that may be cleaned is an item, with its ID and its size.
pub proof fn law_safe_categories_cleanable(
    results: ScanResults,
    excludes: Seq<Seq<char>>,
    j: int,
)
    requires
        0 <= j < results.category_sizes@.len(),
        results.category_sizes@[j].0.safe_to_delete,
    ensures
        exists|i: int|
            0 <= i < cleanable_of(results, excludes).len() && Some(
                #[trigger] cleanable_of(results, excludes)[i],
            ) == category_item(results.category_sizes@[j], excludes),
{
    lemma_category_found(results.category_sizes@, excludes, j);
    let caches = cache_items(results.category_sizes@, excludes);
    let i = choose|i: int|
        0 <= i < caches.len() && Some(#[trigger] caches[i]) == category_item(
            results.category_sizes@[j],
            excludes,
        );
    assert(cleanable_of(results, excludes)[i] == caches[i]);
}

proof fn lemma_category_found(sized: Seq<(Category, u64)>, excludes: Seq<Seq<char>>, j: int)
    requires
        0 <= j < sized.len(),
        sized[j].0.safe_to_delete,
    ensures
        exists|i: int|
            0 <= i < cache_items(sized, excludes).len() && Some(
                #[trigger] cache_items(sized, excludes)[i],
            ) == category_item(sized[j], excludes),
    decreases sized.len(),
{
    let read = |sized: (Category, u64)| category_item(sized, excludes);
    let front = sized.drop_last();
    let before = cache_items(front, excludes);
    let all = cache_items(sized, excludes);
    assert(before == front.filter_map(read));
    if j < front.len() {
        lemma_category_found(front, excludes, j);
        let i = choose|i: int|
            0 <= i < before.len() && Some(#[trigger] before[i]) == category_item(
                front[j],
                excludes,
            );
        assert(all[i] == before[i]);
    } else {
        assert(read(sized.last()) is Some);
        assert(Some(all[all.len() - 1]) == category_item(sized[j], excludes));
    }
}

/// Where Docker is not available nothing of it can be cleaned.
pub proof fn law_no_docker_items(results: ScanResults, excludes: Seq<Seq<char>>, i: int)
    requires
        !results.docker.available,
        0 <= i < cleanable_of(results, excludes).len(),
    ensures
        cleanable_of(results, excludes)[i].group != TargetGroup::Docker,
        !(cleanable_of(results, excludes)[i].action is DockerPrune),
{
    law_item_origin(results, excludes, i);
}

/// Every item that deletes something keeps the excluded paths of the run.
pub proof fn law_actions_keep_excludes(results: ScanResults, excludes: Seq<Seq<char>>, i: int)
    requires
        0 <= i < cleanable_of(results, excludes).len(),
    ensures
        match cleanable_of(results, excludes)[i].action {
            CleanActionView::DeleteContents { excludes: kept, .. } => kept == excludes,
            CleanActionView::DeletePaths { excludes: kept, .. } => kept == excludes,
            CleanActionView::DockerPrune { .. } => true,
        },
{
    law_item_origin(results, excludes, i);
}

/// There is no item for nothing: where every category holds something, so does
/// every item.
pub proof fn law_items_hold_something(results: ScanResults, excludes: Seq<Seq<char>>, i: int)
    requires
        forall|j: int|
            0 <= j < results.category_sizes@.len() ==> (
            #[trigger] results.category_sizes@[j]).1 > 0,
        0 <= i < cleanable_of(results, excludes).len(),
    ensures
        cleanable_of(results, excludes)[i].size > 0,
{
    law_item_origin(results, excludes, i);
}

/// Every item can be named: its ID is a target, where the categories are those in
/// some home directory.
pub proof fn law_items_are_targets(
    results: ScanResults,
    excludes: Seq<Seq<char>>,
    home: Seq<char>,
    i: int,
)
    requires
        forall|j: int|
            0 <= j < results.category_sizes@.len() ==> categories_of(home).contains(
                (#[trigger] results.category_sizes@[j]).0@,
            ),
        0 <= i < cleanable_of(results, excludes).len(),
    ensures
        known_target(cleanable_of(results, excludes)[i].id),
{
    law_item_origin(results, excludes, i);
    let item = cleanable_of(results, excludes)[i];
    let ids = target_id_texts();
    match item.group {
        TargetGroup::Caches => {
            let j = choose|j: int|
                0 <= j < results.category_sizes@.len()
                    && results.category_sizes@[j].0.safe_to_delete && category_item(
                    #[trigger] results.category_sizes@[j],
                    excludes,
                ) == Some(item);
            let view = results.category_sizes@[j].0@;
            assert(categories_of(home).contains(view));
            let k = choose|k: int|
                0 <= k < categories_of(home).len() && categories_of(home)[k] == view;
            law_cleanable_category_is_target(home, k);
        },
        TargetGroup::Projects => {
            assert(ids[14] == "node-modules"@);
            assert(ids[15] == "python-venvs"@);
            assert(ids[16] == "pycache"@);
        },
        TargetGroup::Docker => {
            assert(ids[17] == "docker-images"@);
            assert(ids[18] == "docker-containers"@);
            assert(ids[19] == "docker-build-cache"@);
            assert(ids[20] == "docker-volumes"@);
        },
    }
}

/// What stands in one sequence behind another stands in one of them.
proof fn lemma_in_either(a: Seq<ItemView>, b: Seq<ItemView>, item: ItemView)
    ensures
        (a + b).contains(item) <==> a.contains(item) || b.contains(item),
{
    if (a + b).contains(item) {
        let i = choose|i: int| 0 <= i < (a + b).len() && (a + b)[i] == item;
        if i < a.len() {
            assert(a[i] == item);
        } else {
            assert(b[i - a.len()] == item);
        }
    }
    if a.contains(item) {
        let i = choose|i: int| 0 <= i < a.len() && a[i] == item;
        assert((a + b)[i] == item);
    }
    if b.contains(item) {
        let i = choose|i: int| 0 <= i < b.len() && b[i] == item;
        assert((a + b)[a.len() + i] == item);
    }
}

proof fn lemma_parts(results: ScanResults, excludes: Seq<Seq<char>>, item: ItemView)
    ensures
        cleanable_of(results, excludes).contains(item) <==> cache_items(
            results.category_sizes@,
            excludes,
        ).contains(item) || project_items(results, excludes).contains(item) || all_docker_items(
            results,
        ).contains(item),
        cache_items(results.category_sizes@, excludes).contains(item) ==> item.group
            == TargetGroup::Caches,
{
    let caches = cache_items(results.category_sizes@, excludes);
    let projects = project_items(results, excludes);
    lemma_in_either(caches, projects, item);
    lemma_in_either(caches + projects, all_docker_items(results), item);
    if caches.contains(item) {
        let i = choose|i: int| 0 <= i < caches.len() && caches[i] == item;
        lemma_cache_item(results.category_sizes@, excludes, i);
    }
}

proof fn lemma_collection_item(
    id: Seq<char>,
    label: Seq<char>,
    entries: Seq<(String, u64)>,
    total: u64,
    excludes: Seq<Seq<char>>,
    item: ItemView,
)
    ensures
        collection_items(
            id,
            TargetGroup::Projects,
            label,
            entries,
            total,
            excludes,
        ).contains(item) <==> {
            &&& item.group == TargetGroup::Projects
            &&& item.id == id
            &&& item.size == total && total > 0
            &&& item.label == label + " - "@ + decimal_text(entries.len()) + " dirs ("@
                + byte_size_display(total) + ")"@
            &&& item.action matches CleanActionView::DeletePaths { paths, excludes: kept }
            &&& kept == excludes
            &&& paths.len() == entries.len()
            &&& forall|k: int| 0 <= k < paths.len() ==> #[trigger] paths[k] == entries[k].0@
        },
{
    let items = collection_items(id, TargetGroup::Projects, label, entries, total, excludes);
    if items.len() > 0 {
        assert(items.contains(items[0]));
    }
    if let CleanActionView::DeletePaths { paths, excludes: kept } = item.action {
        if paths.len() == entries.len() && forall|k: int|
            0 <= k < paths.len() ==> #[trigger] paths[k] == entries[k].0@ {
            assert(paths =~= paths_of(entries));
        }
    }
}

proof fn lemma_docker_item(
    id: Seq<char>,
    label: Seq<char>,
    size: u64,
    resource: Seq<char>,
    args: Seq<Seq<char>>,
    item: ItemView,
)
    ensures
        docker_items(id, label, size, resource, args).contains(item) <==> size > 0 && item == (
        ItemView {
            id,
            group: TargetGroup::Docker,
            label: label + " ("@ + byte_size_display(size) + ")"@,
            size,
            action: CleanActionView::DockerPrune { resource, args },
        }),
{
    let items = docker_items(id, label, size, resource, args);
    if items.len() > 0 {
        assert(items.contains(items[0]));
    }
}

/// An item of the group of caches is there if and only if it deletes the contents of a
/// category of the scan that may be cleaned, under the ID of that category and with its
/// size.
pub proof fn law_cache_items(results: ScanResults, excludes: Seq<Seq<char>>, item: ItemView)
    requires
        item.group == TargetGroup::Caches,
    ensures
        cleanable_of(results, excludes).contains(item) <==> exists|j: int| #![auto]
            0 <= j < results.category_sizes@.len() && results.category_sizes@[j].0.safe_to_delete
                && item == (ItemView {
                id: results.category_sizes@[j].0.id@,
                group: TargetGroup::Caches,
                label: results.category_sizes@[j].0.name@ + " ("@ + byte_size_display(
                    results.category_sizes@[j].1,
                ) + ")"@,
                size: results.category_sizes@[j].1,
                action: CleanActionView::DeleteContents {
                    path: results.category_sizes@[j].0.path@,
                    excludes,
                },
            }),
{
    let sized = results.category_sizes@;
    let caches = cache_items(sized, excludes);
    lemma_parts(results, excludes, item);
    if caches.contains(item) {
        let i = choose|i: int| 0 <= i < caches.len() && caches[i] == item;
        lemma_cache_item(sized, excludes, i);
        let j = choose|j: int|
            0 <= j < sized.len() && category_item(#[trigger] sized[j], excludes) == Some(item);
        assert(sized[j].0.safe_to_delete);
    }
    assert forall|j: int|
        0 <= j < sized.len() && (#[trigger] sized[j]).0.safe_to_delete && category_item(
            sized[j],
            excludes,
        ) == Some(item) implies caches.contains(item) by {
        lemma_category_found(sized, excludes, j);
    }
}

/// An item of the group of projects is there if and only if it is the one for
/// `node_modules` directories, for virtual environments or for `__pycache__`
/// directories, and these hold something. It deletes just the directories of its own
/// kind that were found, in order, and its size is what they add up to.
pub proof fn law_project_items(results: ScanResults, excludes: Seq<Seq<char>>, item: ItemView)
    requires
        item.group == TargetGroup::Projects,
    ensures
        cleanable_of(results, excludes).contains(item) <==> {
            ||| {
                &&& item.id == "node-modules"@
                &&& item.size == results.node_modules_total && results.node_modules_total > 0
                &&& item.label == "node_modules"@ + " - "@ + decimal_text(
                    results.node_modules@.len(),
                ) + " dirs ("@ + byte_size_display(results.node_modules_total) + ")"@
                &&& item.action matches CleanActionView::DeletePaths { paths, excludes: kept }
                &&& kept == excludes
                &&& paths.len() == results.node_modules@.len()
                &&& forall|k: int|
                    0 <= k < paths.len() ==> #[trigger] paths[k] == results.node_modules@[k].0@
            }
            ||| {
                &&& item.id == "python-venvs"@
                &&& item.size == results.venvs_total && results.venvs_total > 0
                &&& item.label == "Python venvs"@ + " - "@ + decimal_text(results.venvs@.len())
                    + " dirs ("@ + byte_size_display(results.venvs_total) + ")"@
                &&& item.action matches CleanActionView::DeletePaths { paths, excludes: kept }
                &&& kept == excludes
                &&& paths.len() == results.venvs@.len()
                &&& forall|k: int|
                    0 <= k < paths.len() ==> #[trigger] paths[k] == results.venvs@[k].0@
            }
            ||| {
                &&& item.id == "pycache"@
                &&& item.size == results.pycache_total && results.pycache_total > 0
                &&& item.label == "__pycache__"@ + " - "@ + decimal_text(results.pycaches@.len())
                    + " dirs ("@ + byte_size_display(results.pycache_total) + ")"@
                &&& item.action matches CleanActionView::DeletePaths { paths, excludes: kept }
                &&& kept == excludes
                &&& paths.len() == results.pycaches@.len()
                &&& forall|k: int|
                    0 <= k < paths.len() ==> #[trigger] paths[k] == results.pycaches@[k].0@
            }
        },
{
    lemma_parts(results, excludes, item);
    lemma_collection_item(
        "node-modules"@,
        "node_modules"@,
        results.node_modules@,
        results.node_modules_total,
        excludes,
        item,
    );
    lemma_collection_item(
        "python-venvs"@,
        "Python venvs"@,
        results.venvs@,
        results.venvs_total,
        excludes,
        item,
    );
    lemma_collection_item(
        "pycache"@,
        "__pycache__"@,
        results.pycaches@,
        results.pycache_total,
        excludes,
        item,
    );
    let part0 = collection_items(
        "node-modules"@,
        TargetGroup::Projects,
        "node_modules"@,
        results.node_modules@,
        results.node_modules_total,
        excludes,
    );
    let part1 = collection_items(
        "python-venvs"@,
        TargetGroup::Projects,
        "Python venvs"@,
        results.venvs@,
        results.venvs_total,
        excludes,
    );
    let part2 = collection_items(
        "pycache"@,
        TargetGroup::Projects,
        "__pycache__"@,
        results.pycaches@,
        results.pycache_total,
        excludes,
    );
    lemma_in_either(part0, part1, item);
    lemma_in_either(part0 + part1, part2, item);
}

/// An item of the group of Docker is there if and only if Docker is, and the item prunes
/// one kind of its resources, of which something can be freed. All unused images, build
/// caches and volumes are pruned, and the containers that have stopped.
pub proof fn law_docker_items(results: ScanResults, excludes: Seq<Seq<char>>, item: ItemView)
    requires
        item.group == TargetGroup::Docker,
    ensures
        cleanable_of(results, excludes).contains(item) <==> results.docker.available && {
            ||| results.docker.images > 0 && item == (ItemView {
                id: "docker-images"@,
                group: TargetGroup::Docker,
                label: "Docker images"@ + " ("@ + byte_size_display(results.docker.images) + ")"@,
                size: results.docker.images,
                action: CleanActionView::DockerPrune {
                    resource: "image"@,
                    args: seq!["image"@, "prune"@, "-af"@],
                },
            })
            ||| results.docker.containers > 0 && item == (ItemView {
                id: "docker-containers"@,
                group: TargetGroup::Docker,
                label: "Docker containers"@ + " ("@ + byte_size_display(
                    results.docker.containers,
                ) + ")"@,
                size: results.docker.containers,
                action: CleanActionView::DockerPrune {
                    resource: "container"@,
                    args: seq!["container"@, "prune"@, "-f"@],
                },
            })
            ||| results.docker.build_cache > 0 && item == (ItemView {
                id: "docker-build-cache"@,
                group: TargetGroup::Docker,
                label: "Docker build cache"@ + " ("@ + byte_size_display(
                    results.docker.build_cache,
                ) + ")"@,
                size: results.docker.build_cache,
                action: CleanActionView::DockerPrune {
                    resource: "builder"@,
                    args: seq!["builder"@, "prune"@, "-af"@],
                },
            })
            ||| results.docker.volumes > 0 && item == (ItemView {
                id: "docker-volumes"@,
                group: TargetGroup::Docker,
                label: "Docker volumes"@ + " ("@ + byte_size_display(results.docker.volumes) + ")"@,
                size: results.docker.volumes,
                action: CleanActionView::DockerPrune {
                    resource: "volume"@,
                    args: seq!["volume"@, "prune"@, "-af"@],
                },
            })
        },
{
    lemma_parts(results, excludes, item);
    if results.docker.available {
        let args0 = seq!["image"@, "prune"@, "-af"@];
        let part0 = docker_items(
            "docker-images"@,
            "Docker images"@,
            results.docker.images,
            "image"@,
            args0,
        );
        lemma_docker_item(
            "docker-images"@,
            "Docker images"@,
            results.docker.images,
            "image"@,
            args0,
            item,
        );
        let args1 = seq!["container"@, "prune"@, "-f"@];
        let part1 = docker_items(
            "docker-containers"@,
            "Docker containers"@,
            results.docker.containers,
            "container"@,
            args1,
        );
        lemma_docker_item(
            "docker-containers"@,
            "Docker containers"@,
            results.docker.containers,
            "container"@,
            args1,
            item,
        );
        let args2 = seq!["builder"@, "prune"@, "-af"@];
        let part2 = docker_items(
            "docker-build-cache"@,
            "Docker build cache"@,
            results.docker.build_cache,
            "builder"@,
            args2,
        );
        lemma_docker_item(
            "docker-build-cache"@,
            "Docker build cache"@,
            results.docker.build_cache,
            "builder"@,
            args2,
            item,
        );
        let args3 = seq!["volume"@, "prune"@, "-af"@];
        let part3 = docker_items(
            "docker-volumes"@,
            "Docker volumes"@,
            results.docker.volumes,
            "volume"@,
            args3,
        );
        lemma_docker_item(
            "docker-volumes"@,
            "Docker volumes"@,
            results.docker.volumes,
            "volume"@,
            args3,
            item,
        );
        lemma_in_either(part0, part1, item);
        lemma_in_either(part0 + part1, part2, item);
        lemma_in_either(part0 + part1 + part2, part3, item);
    }
}

/// The number of categories among the first `n` that may be cleaned.
pub open spec fn safe_among(sized: Seq<(Category, u64)>, n: int) -> int
    decreases n,
{
    if n <= 0 {
        0
    } else if sized[n - 1].0.safe_to_delete {
        safe_among(sized, n - 1) + 1
    } else {
        safe_among(sized, n - 1)
    }
}

proof fn lemma_cache_place(sized: Seq<(Category, u64)>, excludes: Seq<Seq<char>>, j: int)
    requires
        0 <= j <= sized.len(),
    ensures
        cache_items(sized, excludes).len() == safe_among(sized, sized.len() as int),
        0 <= safe_among(sized, j) <= cache_items(sized, excludes).len(),
        j < sized.len() && sized[j].0.safe_to_delete ==> safe_among(sized, j) < cache_items(
            sized,
            excludes,
        ).len() && Some(cache_items(sized, excludes)[safe_among(sized, j)]) == category_item(
            sized[j],
            excludes,
        ),
    decreases sized.len(),
{
    let read = |sized: (Category, u64)| category_item(sized, excludes);
    if sized.len() > 0 {
        let front = sized.drop_last();
        let before = cache_items(front, excludes);
        assert(before == front.filter_map(read));
        let k = if j < sized.len() {
            j
        } else {
            sized.len() - 1
        };
        lemma_cache_place(front, excludes, k);
        lemma_safe_among(sized, front, k);
        lemma_safe_among(sized, front, sized.len() - 1);
        if sized.last().0.safe_to_delete {
            assert(read(sized.last()) is Some);
        } else {
            assert(read(sized.last()) is None);
        }
    }
}

proof fn lemma_safe_among(a: Seq<(Category, u64)>, b: Seq<(Category, u64)>, n: int)
    requires
        n <= a.len(),
        n <= b.len(),
        forall|i: int| 0 <= i < n ==> #[trigger] a[i] == b[i],
    ensures
        safe_among(a, n) == safe_among(b, n),
    decreases n,
{
    if n > 0 {
        lemma_safe_among(a, b, n - 1);
    }
}

/// The items for the categories stand first, in the order of the scan: one for each category
/// that may be cleaned, behind those for the categories before it.
pub proof fn law_items_in_order(results: ScanResults, excludes: Seq<Seq<char>>, j: int)
    requires
        0 <= j < results.category_sizes@.len(),
        results.category_sizes@[j].0.safe_to_delete,
    ensures
        ({
            let items = cleanable_of(results, excludes);
            let i = safe_among(results.category_sizes@, j);
            &&& 0 <= i < items.len()
            &&& items[i].id == results.category_sizes@[j].0.id@
            &&& items[i].size == results.category_sizes@[j].1
            &&& items[i].action matches CleanActionView::DeleteContents { path, .. }
            &&& path == results.category_sizes@[j].0.path@
        }),
{
    lemma_cache_place(results.category_sizes@, excludes, j);
    let i = safe_among(results.category_sizes@, j);
    assert(cleanable_of(results, excludes)[i] == cache_items(results.category_sizes@, excludes)[i]);
}

/// One where there is something, and none where there is nothing.
pub open spec fn one_if(size: u64) -> int {
    if size > 0 {
        1
    } else {
        0
    }
}

proof fn lemma_project_places(results: ScanResults, excludes: Seq<Seq<char>>)
    ensures
        ({
            let items = project_items(results, excludes);
            let a = one_if(results.node_modules_total);
            let b = a + one_if(results.venvs_total);
            &&& items.len() == b + one_if(results.pycache_total)
            &&& results.node_modules_total > 0 ==> items[0].id == "node-modules"@
            &&& results.venvs_total > 0 ==> items[a].id == "python-venvs"@
            &&& results.pycache_total > 0 ==> items[b].id == "pycache"@
        }),
{
}

proof fn lemma_docker_places(results: ScanResults)
    requires
        results.docker.available,
    ensures
        ({
            let items = all_docker_items(results);
            let a = one_if(results.docker.images);
            let b = a + one_if(results.docker.containers);
            let c = b + one_if(results.docker.build_cache);
            &&& items.len() == c + one_if(results.docker.volumes)
            &&& results.docker.images > 0 ==> items[0].id == "docker-images"@
            &&& results.docker.containers > 0 ==> items[a].id == "docker-containers"@
            &&& results.docker.build_cache > 0 ==> items[b].id == "docker-build-cache"@
            &&& results.docker.volumes > 0 ==> items[c].id == "docker-volumes"@
        }),
{
}

/// Behind the items for the categories come those for the directories of projects, at most
/// one of each kind: `node_modules`, virtual environments, `__pycache__`. Where Docker is not
/// there, they are the last.
pub proof fn law_project_items_in_order(results: ScanResults, excludes: Seq<Seq<char>>)
    ensures
        ({
            let items = cleanable_of(results, excludes);
            let a = safe_among(results.category_sizes@, results.category_sizes@.len() as int);
            let b = a + one_if(results.node_modules_total);
            let c = b + one_if(results.venvs_total);
            let d = c + one_if(results.pycache_total);
            &&& results.node_modules_total > 0 ==> items[a].id == "node-modules"@
            &&& results.venvs_total > 0 ==> items[b].id == "python-venvs"@
            &&& results.pycache_total > 0 ==> items[c].id == "pycache"@
            &&& !results.docker.available ==> items.len() == d
        }),
{
    let sized = results.category_sizes@;
    lemma_cache_place(sized, excludes, sized.len() as int);
    lemma_project_places(results, excludes);
    let items = cleanable_of(results, excludes);
    let caches = cache_items(sized, excludes);
    let projects = project_items(results, excludes);
    assert forall|i: int| 0 <= i < projects.len() implies #[trigger] projects[i]
        == items[caches.len() + i] by {}
}

/// Behind the items for projects come those for Docker, where it is there, at most one of
/// each kind: images, containers, build caches, volumes. They are the last.
pub proof fn law_docker_items_in_order(results: ScanResults, excludes: Seq<Seq<char>>)
    requires
        results.docker.available,
    ensures
        ({
            let items = cleanable_of(results, excludes);
            let a = safe_among(results.category_sizes@, results.category_sizes@.len() as int)
                + one_if(results.node_modules_total) + one_if(results.venvs_total) + one_if(
                results.pycache_total,
            );
            let b = a + one_if(results.docker.images);
            let c = b + one_if(results.docker.containers);
            let d = c + one_if(results.docker.build_cache);
            &&& items.len() == d + one_if(results.docker.volumes)
            &&& results.docker.images > 0 ==> items[a].id == "docker-images"@
            &&& results.docker.containers > 0 ==> items[b].id == "docker-containers"@
            &&& results.docker.build_cache > 0 ==> items[c].id == "docker-build-cache"@
            &&& results.docker.volumes > 0 ==> items[d].id == "docker-volumes"@
        }),
{
    let sized = results.category_sizes@;
    lemma_cache_place(sized, excludes, sized.len() as int);
    lemma_project_places(results, excludes);
    lemma_docker_places(results);
    let items = cleanable_of(results, excludes);
    let before = cache_items(sized, excludes) + project_items(results, excludes);
    let docker = all_docker_items(results);
    assert forall|i: int| 0 <= i < docker.len() implies #[trigger] docker[i] == items[before.len()
        + i] by {}
}

} // verus!
