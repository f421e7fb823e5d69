//! Directory trees, as they were read from a disk.

use vstd::prelude::*;

use crate::location::{places, Location, LocationView};
use crate::words::{holds, texts};

verus! {

/// An entry of a directory.
#[derive(Debug)]
pub enum Node {
    /// A file, with the extension of its name.
    File { name: String, extension: Option<String> },
    /// A directory and its entries, in the order in which they were read.
    Dir { name: String, entries: Vec<Node> },
    /// The place where the listing of the directory breaks off, since the directory or
    /// its next entry cannot be read.
    Broken,
}

/// What is done to copy a tree.
#[derive(Debug)]
pub enum TreeStep {
    /// Create a directory and those above it.
    CreateDirs { path: Location },
    /// Remove `to` if it is there, and copy the file `from` to it.
    Replace { from: Location, to: Location },
    /// Fail, since the directory, or an entry of it, cannot be read.
    Fail { path: Location },
}

/// The model of a [`TreeStep`].
pub enum TreeStepView {
    CreateDirs(LocationView),
    Replace(LocationView, LocationView),
    Fail(LocationView),
}

impl View for TreeStep {
    type V = TreeStepView;

    open spec fn view(&self) -> TreeStepView {
        match *self {
            TreeStep::CreateDirs { path } => TreeStepView::CreateDirs(path@),
            TreeStep::Replace { from, to } => TreeStepView::Replace(from@, to@),
            TreeStep::Fail { path } => TreeStepView::Fail(path@),
        }
    }
}

/// The views of a list of tree steps.
pub open spec fn tree_steps(list: Seq<TreeStep>) -> Seq<TreeStepView> {
    list.map_values(|step: TreeStep| step@)
}

/// The extension of a file's name is in `extensions`.
pub open spec fn has_extension(extension: Option<String>, extensions: Seq<Seq<char>>) -> bool {
    match extension {
        Some(extension) => extensions.contains(extension@),
        None => false,
    }
}

/// The files with one of `extensions` in and below the directory `dir` with these
/// entries, in order. What cannot be read adds none.
pub open spec fn files_in(
    entries: Seq<Node>,
    dir: LocationView,
    extensions: Seq<Seq<char>>,
) -> Seq<LocationView>
    decreases entries,
{
    if entries.len() == 0 {
        seq![]
    } else {
        files_in(entries.drop_last(), dir, extensions) + files_at(
            entries.last(),
            dir,
            extensions,
        )
    }
}

/// The files with one of `extensions` that one entry of the directory `dir` stands
/// for.
pub open spec fn files_at(node: Node, dir: LocationView, extensions: Seq<Seq<char>>) -> Seq<
    LocationView,
>
    decreases node,
{
    match node {
        Node::File { name, extension } => if has_extension(extension, extensions) {
            seq![dir.join(name@)]
        } else {
            seq![]
        },
        Node::Dir { name, entries } => files_in(entries@, dir.join(name@), extensions),
        Node::Broken => seq![],
    }
}

/// The steps that copy the entries of `src` to `dst`.
pub open spec fn copies_in(
    entries: Seq<Node>,
    src: LocationView,
    dst: LocationView,
) -> Seq<TreeStepView>
    decreases entries,
{
    if entries.len() == 0 {
        seq![]
    } else {
        copies_in(entries.drop_last(), src, dst) + copies_at(entries.last(), src, dst)
    }
}

/// The steps that copy one entry of `src` to `dst`.
pub open spec fn copies_at(node: Node, src: LocationView, dst: LocationView) -> Seq<TreeStepView>
    decreases node,
{
    match node {
        Node::File { name, extension } => seq![
            TreeStepView::Replace(src.join(name@), dst.join(name@)),
        ],
        Node::Dir { name, entries } => seq![TreeStepView::CreateDirs(dst.join(name@))] + copies_in(
            entries@,
            src.join(name@),
            dst.join(name@),
        ),
        Node::Broken => seq![TreeStepView::Fail(src)],
    }
}

/// Appends the files with one of `extensions` in and below `dir` to `out`.
pub fn collect_files(
    entries: &Vec<Node>,
    dir: &Location,
    extensions: &Vec<String>,
    out: &mut Vec<Location>,
)
    ensures
        places(final(out)@) == places(old(out)@) + files_in(
            entries@,
            dir@,
            texts(extensions@),
        ),
    decreases entries,
{
    let ghost before = places(out@);
    let ghost wanted = texts(extensions@);
    let mut i: usize = 0;
    assert(entries@.take(0) =~= seq![]);
    assert(before + files_in(entries@.take(0), dir@, wanted) =~= before);
    while i < entries.len()
        invariant
            i <= entries@.len(),
            wanted == texts(extensions@),
            places(out@) == before + files_in(entries@.take(i as int), dir@, wanted),
        decreases entries@.len() - i,
    {
        let ghost sofar = places(out@);
        match &entries[i] {
            Node::File { name, extension } => {
                match extension {
                    Some(extension) => {
                        if holds(extensions, extension) {
                            out.push(dir.join(name.as_str()));
                            assert(places(out@) =~= sofar.push(dir@.join(name@)));
                        }
                    },
                    None => {},
                }
            },
            Node::Dir { name, entries: inner } => {
                collect_files(inner, &dir.join(name.as_str()), extensions, out);
            },
            Node::Broken => {},
        }
        proof {
            assert(places(out@) =~= sofar + files_at(entries@[i as int], dir@, wanted));
            assert(entries@.take(i + 1).drop_last() =~= entries@.take(i as int));
            assert(places(out@) =~= before + files_in(entries@.take(i + 1), dir@, wanted));
        }
        i = i + 1;
    }
    assert(entries@.take(i as int) =~= entries@);
}

/// Appends the steps that copy the entries of `src` to `dst`.
fn copy_entries(entries: &Vec<Node>, src: &Location, dst: &Location, out: &mut Vec<TreeStep>)
    ensures
        tree_steps(final(out)@) == tree_steps(old(out)@) + copies_in(entries@, src@, dst@),
    decreases entries,
{
    let ghost before = tree_steps(out@);
    let mut i: usize = 0;
    assert(entries@.take(0) =~= seq![]);
    assert(before + copies_in(entries@.take(0), src@, dst@) =~= before);
    while i < entries.len()
        invariant
            i <= entries@.len(),
            tree_steps(out@) == before + copies_in(entries@.take(i as int), src@, dst@),
        decreases entries@.len() - i,
    {
        let ghost sofar = tree_steps(out@);
        match &entries[i] {
            Node::File { name, extension: _ } => {
                let step: TreeStep = TreeStep::Replace {
                    from: src.join(name.as_str()),
                    to: dst.join(name.as_str()),
                };
                out.push(step);
                assert(tree_steps(out@) =~= sofar.push(step@));
            },
            Node::Dir { name, entries: inner } => {
                let from: Location = src.join(name.as_str());
                let to: Location = dst.join(name.as_str());
                out.push(TreeStep::CreateDirs { path: to.clone() });
                assert(tree_steps(out@) =~= sofar.push(TreeStepView::CreateDirs(to@)));
                copy_entries(inner, &from, &to, out);
            },
            Node::Broken => {
                out.push(TreeStep::Fail { path: src.clone() });
                assert(tree_steps(out@) =~= sofar.push(TreeStepView::Fail(src@)));
            },
        }
        proof {
            assert(tree_steps(out@) =~= sofar + copies_at(entries@[i as int], src@, dst@));
            assert(entries@.take(i + 1).drop_last() =~= entries@.take(i as int));
            assert(tree_steps(out@) =~= before + copies_in(entries@.take(i + 1), src@, dst@));
        }
        i = i + 1;
    }
    assert(entries@.take(i as int) =~= entries@);
}

/// The steps that copy the directory `src` with the given entries to `dst`.
pub fn copy_dir_recursive(entries: &Vec<Node>, src: &Location, dst: &Location) -> (steps: Vec<
    TreeStep,
>)
    ensures
        tree_steps(steps@) == seq![TreeStepView::CreateDirs(dst@)] + copies_in(
            entries@,
            src@,
            dst@,
        ),
{
    let mut steps: Vec<TreeStep> = Vec::new();
    steps.push(TreeStep::CreateDirs { path: dst.clone() });
    assert(tree_steps(steps@) =~= seq![TreeStepView::CreateDirs(dst@)]);
    copy_entries(entries, src, dst, &mut steps);
    steps
}

/// The place below `location` that one gets to by `names`.
pub open spec fn descend(location: LocationView, names: Seq<Seq<char>>) -> LocationView {
    LocationView { root: location.root, parts: location.parts + names }
}

/// `step` copies to the place below `dst` that its source has below `src`.
pub open spec fn mirrors(step: TreeStepView, src: LocationView, dst: LocationView) -> bool {
    match step {
        TreeStepView::Replace(from, to) => exists|names: Seq<Seq<char>>|
            from == #[trigger] descend(src, names) && to == descend(dst, names),
        TreeStepView::CreateDirs(path) => path.is_under(dst),
        TreeStepView::Fail(path) => path.is_under(src),
    }
}

proof fn lemma_under_child(path: LocationView, dir: LocationView, name: Seq<char>)
    requires
        path.is_under(dir.join(name)),
    ensures
        path.is_under(dir),
{
    assert(path.parts.subrange(0, dir.parts.len() as int) =~= dir.parts) by {
        let longer = dir.join(name).parts;
        assert(longer =~= path.parts.subrange(0, longer.len() as int));
        assert forall|i: int| 0 <= i < dir.parts.len() implies path.parts[i] == dir.parts[i] by {
            assert(longer[i] == dir.parts[i]);
            assert(path.parts.subrange(0, longer.len() as int)[i] == path.parts[i]);
        }
    }
}

proof fn lemma_mirrors_child(
    step: TreeStepView,
    src: LocationView,
    dst: LocationView,
    name: Seq<char>,
)
    requires
        mirrors(step, src.join(name), dst.join(name)),
    ensures
        mirrors(step, src, dst),
{
    match step {
        TreeStepView::Replace(from, to) => {
            let names = choose|names: Seq<Seq<char>>|
                from == #[trigger] descend(src.join(name), names) && to == descend(
                    dst.join(name),
                    names,
                );
            let all = seq![name] + names;
            assert(from.parts =~= descend(src, all).parts);
            assert(to.parts =~= descend(dst, all).parts);
            assert(from == descend(src, all) && to == descend(dst, all));
        },
        TreeStepView::CreateDirs(path) => {
            lemma_under_child(path, dst, name);
        },
        TreeStepView::Fail(path) => {
            lemma_under_child(path, src, name);
        },
    }
}

/// One gets from a directory with these entries to a file by `names`.
pub open spec fn leads_to_file(entries: Seq<Node>, names: Seq<Seq<char>>) -> bool
    decreases entries,
{
    entries.len() > 0 && (entry_leads_to_file(entries.last(), names) || leads_to_file(entries.drop_last(), names))
}

/// One gets to a file by `names`, of which the first is that of the entry `node`.
pub open spec fn entry_leads_to_file(node: Node, names: Seq<Seq<char>>) -> bool
    decreases node,
{
    names.len() > 0 && match node {
        Node::File { name, extension } => names == seq![name@],
        Node::Dir { name, entries } => names[0] == name@ && leads_to_file(
            entries@,
            names.drop_first(),
        ),
        Node::Broken => false,
    }
}

/// One gets from a directory with these entries to a directory by `names`.
pub open spec fn leads_to_dir(entries: Seq<Node>, names: Seq<Seq<char>>) -> bool
    decreases entries,
{
    entries.len() > 0 && (entry_leads_to_dir(entries.last(), names) || leads_to_dir(entries.drop_last(), names))
}

/// One gets to a directory by `names`, of which the first is that of the entry `node`.
pub open spec fn entry_leads_to_dir(node: Node, names: Seq<Seq<char>>) -> bool
    decreases node,
{
    names.len() > 0 && match node {
        Node::Dir { name, entries } => names == seq![name@] || (names[0] == name@ && leads_to_dir(
            entries@,
            names.drop_first(),
        )),
        _ => false,
    }
}

/// The steps for the last entry and those for the others are the steps for a directory.
proof fn lemma_steps_of_entries(
    entries: Seq<Node>,
    src: LocationView,
    dst: LocationView,
    step: TreeStepView,
)
    requires
        entries.len() > 0,
        copies_at(entries.last(), src, dst).contains(step) || copies_in(
            entries.drop_last(),
            src,
            dst,
        ).contains(step),
    ensures
        copies_in(entries, src, dst).contains(step),
{
    let list = copies_in(entries, src, dst);
    let rest = copies_in(entries.drop_last(), src, dst);
    let last = copies_at(entries.last(), src, dst);
    if last.contains(step) {
        let k = choose|k: int| 0 <= k < last.len() && last[k] == step;
        assert(list[rest.len() + k] == step);
    } else {
        let k = choose|k: int| 0 <= k < rest.len() && rest[k] == step;
        assert(list[k] == step);
    }
}

/// A step for an entry of a directory is among those for the directory.
proof fn lemma_steps_of_dir(
    name: String,
    entries: Vec<Node>,
    src: LocationView,
    dst: LocationView,
    step: TreeStepView,
)
    requires
        copies_in(entries@, src.join(name@), dst.join(name@)).contains(step),
    ensures
        copies_at(Node::Dir { name, entries }, src, dst).contains(step),
{
    let inner = copies_in(entries@, src.join(name@), dst.join(name@));
    let k = choose|k: int| 0 <= k < inner.len() && inner[k] == step;
    assert(copies_at(Node::Dir { name, entries }, src, dst)[k + 1] == step);
}

/// The first name and then the others lead to where all of them lead.
proof fn lemma_descend(location: LocationView, names: Seq<Seq<char>>)
    requires
        names.len() > 0,
    ensures
        descend(location.join(names[0]), names.drop_first()) == descend(location, names),
        names.len() == 1 ==> location.join(names[0]) == descend(location, names),
{
    assert(descend(location.join(names[0]), names.drop_first()).parts =~= descend(
        location,
        names,
    ).parts);
    if names.len() == 1 {
        assert(location.join(names[0]).parts =~= descend(location, names).parts);
    }
}

/// Copying leaves nothing out: every file that one gets to by some names is copied to
/// the place that the same names lead to below the destination.
pub proof fn law_every_file_is_copied(
    entries: Seq<Node>,
    src: LocationView,
    dst: LocationView,
    names: Seq<Seq<char>>,
)
    requires
        leads_to_file(entries, names),
    ensures
        copies_in(entries, src, dst).contains(
            TreeStepView::Replace(descend(src, names), descend(dst, names)),
        ),
    decreases entries,
{
    let step = TreeStepView::Replace(descend(src, names), descend(dst, names));
    if entry_leads_to_file(entries.last(), names) {
        lemma_descend(src, names);
        lemma_descend(dst, names);
        match entries.last() {
            Node::File { name, extension } => {
                assert(copies_at(entries.last(), src, dst)[0] == step);
            },
            Node::Dir { name, entries: inner } => {
                law_every_file_is_copied(
                    inner@,
                    src.join(name@),
                    dst.join(name@),
                    names.drop_first(),
                );
                lemma_steps_of_dir(name, inner, src, dst, step);
            },
            Node::Broken => {},
        }
    } else {
        law_every_file_is_copied(entries.drop_last(), src, dst, names);
    }
    lemma_steps_of_entries(entries, src, dst, step);
}

/// Copying leaves no directory out, not even an empty one: every directory that one gets
/// to by some names is created where the same names lead to below the destination.
pub proof fn law_every_directory_is_created(
    entries: Seq<Node>,
    src: LocationView,
    dst: LocationView,
    names: Seq<Seq<char>>,
)
    requires
        leads_to_dir(entries, names),
    ensures
        copies_in(entries, src, dst).contains(TreeStepView::CreateDirs(descend(dst, names))),
    decreases entries,
{
    let step = TreeStepView::CreateDirs(descend(dst, names));
    if entry_leads_to_dir(entries.last(), names) {
        lemma_descend(dst, names);
        match entries.last() {
            Node::Dir { name, entries: inner } => {
                if names == seq![name@] {
                    assert(copies_at(entries.last(), src, dst)[0] == step);
                } else {
                    law_every_directory_is_created(
                        inner@,
                        src.join(name@),
                        dst.join(name@),
                        names.drop_first(),
                    );
                    lemma_steps_of_dir(name, inner, src, dst, step);
                }
            },
            _ => {},
        }
    } else {
        law_every_directory_is_created(entries.drop_last(), src, dst, names);
    }
    lemma_steps_of_entries(entries, src, dst, step);
}

/// Copying keeps the shape of a tree: what is copied goes to the place below the
/// destination that it has below the source, and nothing is made elsewhere.
pub proof fn law_copies_mirror_the_tree(
    entries: Seq<Node>,
    src: LocationView,
    dst: LocationView,
)
    ensures
        forall|i: int|
            0 <= i < copies_in(entries, src, dst).len() ==> mirrors(
                #[trigger] copies_in(entries, src, dst)[i],
                src,
                dst,
            ),
    decreases entries,
{
    if entries.len() > 0 {
        let list = copies_in(entries, src, dst);
        let rest = copies_in(entries.drop_last(), src, dst);
        let last = copies_at(entries.last(), src, dst);
        law_copies_mirror_the_tree(entries.drop_last(), src, dst);
        lemma_node_copies_mirror(entries.last(), src, dst);
        assert forall|i: int| 0 <= i < list.len() implies mirrors(
            #[trigger] list[i],
            src,
            dst,
        ) by {
            if i < rest.len() {
                assert(list[i] == rest[i]);
            } else {
                assert(list[i] == last[i - rest.len()]);
            }
        }
    }
}

proof fn lemma_node_copies_mirror(node: Node, src: LocationView, dst: LocationView)
    ensures
        forall|i: int|
            0 <= i < copies_at(node, src, dst).len() ==> mirrors(
                #[trigger] copies_at(node, src, dst)[i],
                src,
                dst,
            ),
    decreases node,
{
    let list = copies_at(node, src, dst);
    match node {
        Node::File { name, extension } => {
            let names = seq![name@];
            assert(src.join(name@).parts =~= descend(src, names).parts);
            assert(dst.join(name@).parts =~= descend(dst, names).parts);
            assert(src.join(name@) == descend(src, names) && dst.join(name@) == descend(
                dst,
                names,
            ));
        },
        Node::Dir { name, entries } => {
            let inner = copies_in(entries@, src.join(name@), dst.join(name@));
            law_copies_mirror_the_tree(entries@, src.join(name@), dst.join(name@));
            crate::location::law_join_is_under(dst, name@);
            assert forall|i: int| 0 <= i < list.len() implies mirrors(
                #[trigger] list[i],
                src,
                dst,
            ) by {
                if i > 0 {
                    assert(list[i] == inner[i - 1]);
                    lemma_mirrors_child(inner[i - 1], src, dst, name@);
                }
            }
        },
        Node::Broken => {
            assert(src.parts.subrange(0, src.parts.len() as int) =~= src.parts);
        },
    }
}

/// Collecting stays in its directory: every file that is collected lies below it.
pub proof fn law_collected_files_are_below(
    entries: Seq<Node>,
    dir: LocationView,
    extensions: Seq<Seq<char>>,
)
    ensures
        forall|i: int|
            0 <= i < files_in(entries, dir, extensions).len() ==> (#[trigger] files_in(
                entries,
                dir,
                extensions,
            )[i]).is_under(dir),
    decreases entries,
{
    if entries.len() > 0 {
        let list = files_in(entries, dir, extensions);
        let rest = files_in(entries.drop_last(), dir, extensions);
        let last = files_at(entries.last(), dir, extensions);
        law_collected_files_are_below(entries.drop_last(), dir, extensions);
        match entries.last() {
            Node::File { name, extension } => {
                crate::location::law_join_is_under(dir, name@);
            },
            Node::Dir { name, entries: inner } => {
                law_collected_files_are_below(inner@, dir.join(name@), extensions);
                assert(last == files_in(inner@, dir.join(name@), extensions));
                assert forall|i: int| 0 <= i < last.len() implies (#[trigger] last[i]).is_under(
                    dir,
                ) by {
                    lemma_under_child(last[i], dir, name@);
                }
            },
            Node::Broken => {},
        }
        assert forall|i: int| 0 <= i < list.len() implies (#[trigger] list[i]).is_under(dir) by {
            if i < rest.len() {
                assert(list[i] == rest[i]);
            } else {
                assert(list[i] == last[i - rest.len()]);
            }
        }
    }
}

/// One gets from a directory with these entries by `names` to a file whose name has one
/// of `extensions`.
pub open spec fn leads_to_match(
    entries: Seq<Node>,
    names: Seq<Seq<char>>,
    extensions: Seq<Seq<char>>,
) -> bool
    decreases entries,
{
    entries.len() > 0 && (entry_leads_to_match(entries.last(), names, extensions)
        || leads_to_match(entries.drop_last(), names, extensions))
}

/// The same, where the first of `names` is that of the entry `node`.
pub open spec fn entry_leads_to_match(
    node: Node,
    names: Seq<Seq<char>>,
    extensions: Seq<Seq<char>>,
) -> bool
    decreases node,
{
    names.len() > 0 && match node {
        Node::File { name, extension } => names == seq![name@] && (match extension {
            Some(extension) => extensions.contains(extension@),
            None => false,
        }),
        Node::Dir { name, entries } => names[0] == name@ && leads_to_match(
            entries@,
            names.drop_first(),
            extensions,
        ),
        Node::Broken => false,
    }
}

proof fn lemma_files_of_entries(
    entries: Seq<Node>,
    dir: LocationView,
    extensions: Seq<Seq<char>>,
    path: LocationView,
)
    requires
        entries.len() > 0,
    ensures
        files_in(entries, dir, extensions).contains(path) <==> files_at(
            entries.last(),
            dir,
            extensions,
        ).contains(path) || files_in(entries.drop_last(), dir, extensions).contains(path),
{
    let list = files_in(entries, dir, extensions);
    let rest = files_in(entries.drop_last(), dir, extensions);
    let last = files_at(entries.last(), dir, extensions);
    assert(list == rest + last);
    if list.contains(path) {
        let i = choose|i: int| 0 <= i < list.len() && list[i] == path;
        if i < rest.len() {
            assert(rest[i] == path);
        } else {
            assert(last[i - rest.len()] == path);
        }
    }
    if rest.contains(path) {
        let i = choose|i: int| 0 <= i < rest.len() && rest[i] == path;
        assert(list[i] == path);
    }
    if last.contains(path) {
        let i = choose|i: int| 0 <= i < last.len() && last[i] == path;
        assert(list[rest.len() + i] == path);
    }
}

/// A place below `dir` that lies below one of its directories is reached through it.
proof fn lemma_below_entry(dir: LocationView, name: Seq<char>, names: Seq<Seq<char>>)
    requires
        descend(dir, names).is_under(dir.join(name)),
    ensures
        names.len() > 0,
        names[0] == name,
        descend(dir, names) == descend(dir.join(name), names.drop_first()),
{
    let path = descend(dir, names);
    let size = dir.parts.len() as int;
    let longer = dir.join(name).parts;
    assert(longer =~= path.parts.subrange(0, size + 1));
    assert(path.parts.subrange(0, size + 1)[size] == longer[size]);
    assert(path.parts[size] == names[0]);
    lemma_descend(dir, names);
}

/// Exactly the files with one of the extensions are collected, from whatever depth.
pub proof fn law_exactly_the_matching_files_are_collected(
    entries: Seq<Node>,
    dir: LocationView,
    extensions: Seq<Seq<char>>,
    names: Seq<Seq<char>>,
)
    ensures
        files_in(entries, dir, extensions).contains(descend(dir, names)) <==> leads_to_match(
            entries,
            names,
            extensions,
        ),
    decreases entries,
{
    let path = descend(dir, names);
    if entries.len() > 0 {
        lemma_files_of_entries(entries, dir, extensions, path);
        law_exactly_the_matching_files_are_collected(entries.drop_last(), dir, extensions, names);
        let last = files_at(entries.last(), dir, extensions);
        assert(leads_to_match(entries, names, extensions) <==> entry_leads_to_match(
            entries.last(),
            names,
            extensions,
        ) || leads_to_match(entries.drop_last(), names, extensions));
        match entries.last() {
            Node::File { name, extension } => {
                if has_extension(extension, extensions) {
                    assert(last[0] == dir.join(name@));
                    if names == seq![name@] {
                        lemma_descend(dir, names);
                        assert(last[0] == path);
                    }
                    if last.contains(path) {
                        assert(path == dir.join(name@));
                        assert(path.parts.len() == dir.parts.len() + names.len());
                        assert(path.parts[dir.parts.len() as int] == names[0]);
                        assert(names =~= seq![name@]);
                    }
                } else {
                    assert(!last.contains(path));
                }
                assert(last.contains(path) <==> entry_leads_to_match(
                    entries.last(),
                    names,
                    extensions,
                ));
            },
            Node::Dir { name, entries: inner } => {
                assert(last == files_in(inner@, dir.join(name@), extensions));
                assert(entry_leads_to_match(entries.last(), names, extensions) <==> names.len() > 0
                    && names[0] == name@ && leads_to_match(
                    inner@,
                    names.drop_first(),
                    extensions,
                ));
                if names.len() > 0 && names[0] == name@ {
                    lemma_descend(dir, names);
                    law_exactly_the_matching_files_are_collected(
                        inner@,
                        dir.join(name@),
                        extensions,
                        names.drop_first(),
                    );
                }
                if last.contains(path) {
                    law_collected_files_are_below(inner@, dir.join(name@), extensions);
                    let i = choose|i: int| 0 <= i < last.len() && last[i] == path;
                    assert(last[i].is_under(dir.join(name@)));
                    lemma_below_entry(dir, name@, names);
                    law_exactly_the_matching_files_are_collected(
                        inner@,
                        dir.join(name@),
                        extensions,
                        names.drop_first(),
                    );
                }
            },
            Node::Broken => {
                assert(!last.contains(path));
            },
        }
    }
}

/// A directory is entered after it was created: its own steps come right after the one
/// that creates it, and the steps of an entry after those of the entries before it.
pub proof fn law_directories_are_created_before_they_are_filled(
    entries: Seq<Node>,
    name: String,
    inner: Vec<Node>,
    src: LocationView,
    dst: LocationView,
)
    ensures
        copies_in(entries.push(Node::Dir { name, entries: inner }), src, dst) == copies_in(
            entries,
            src,
            dst,
        ) + seq![TreeStepView::CreateDirs(dst.join(name@))] + copies_in(
            inner@,
            src.join(name@),
            dst.join(name@),
        ),
{
    let node = Node::Dir { name, entries: inner };
    let list = entries.push(node);
    assert(list.drop_last() =~= entries);
    assert(list.last() == node);
    assert(copies_in(list, src, dst) == copies_in(entries, src, dst) + copies_at(node, src, dst));
    assert(copies_at(node, src, dst) == seq![TreeStepView::CreateDirs(dst.join(name@))]
        + copies_in(inner@, src.join(name@), dst.join(name@)));
    assert(copies_in(list, src, dst) =~= copies_in(entries, src, dst) + seq![
        TreeStepView::CreateDirs(dst.join(name@)),
    ] + copies_in(inner@, src.join(name@), dst.join(name@)));
}

/// A file is copied after what the entries before it call for, by one step.
pub proof fn law_files_are_copied_in_order(
    entries: Seq<Node>,
    name: String,
    extension: Option<String>,
    src: LocationView,
    dst: LocationView,
)
    ensures
        copies_in(entries.push(Node::File { name, extension }), src, dst) == copies_in(
            entries,
            src,
            dst,
        ).push(TreeStepView::Replace(src.join(name@), dst.join(name@))),
        copies_in(Seq::<Node>::empty(), src, dst).len() == 0,
{
    let node = Node::File { name, extension };
    let list = entries.push(node);
    assert(list.drop_last() =~= entries);
    assert(list.last() == node);
    assert(copies_in(list, src, dst) == copies_in(entries, src, dst) + copies_at(node, src, dst));
    assert(copies_in(list, src, dst) =~= copies_in(entries, src, dst).push(
        TreeStepView::Replace(src.join(name@), dst.join(name@)),
    ));
}

/// Where a listing breaks off, copying fails there, after what came before.
pub proof fn law_broken_listings_fail(entries: Seq<Node>, src: LocationView, dst: LocationView)
    ensures
        copies_in(entries.push(Node::Broken), src, dst) == copies_in(entries, src, dst).push(
            TreeStepView::Fail(src),
        ),
{
    let list = entries.push(Node::Broken);
    assert(list.drop_last() =~= entries);
    assert(list.last() == Node::Broken);
    assert(copies_in(list, src, dst) == copies_in(entries, src, dst) + copies_at(
        Node::Broken,
        src,
        dst,
    ));
    assert(copies_in(list, src, dst) =~= copies_in(entries, src, dst).push(
        TreeStepView::Fail(src),
    ));
}

} // verus!
