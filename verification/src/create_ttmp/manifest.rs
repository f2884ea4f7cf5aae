use crate::create_ttmp::dat::dat_code_of;
use crate::create_ttmp::ManifestError;
use crate::model::{Group, GroupOptionGameArchive, OptionItem, SelectionType};
use vstd::prelude::*;

verus! {

/// One file of a mod as the manifest lists it.
#[derive(Debug, PartialEq, Eq)]
pub struct ManifestMod {
    pub full_path: String,
    pub dat_file: String,
}

/// One option of a group as the manifest lists it, with its files.
#[derive(Debug, PartialEq, Eq)]
pub struct ManifestOption {
    pub name: String,
    pub description: Option<String>,
    pub image_path: Option<String>,
    pub mods: Vec<ManifestMod>,
}

/// One page of the manifest: one group with its options.
#[derive(Debug, PartialEq, Eq)]
pub struct ManifestPage {
    pub group_name: String,
    pub selection_type: SelectionType,
    pub options: Vec<ManifestOption>,
    pub page_index: i32,
}

/// The manifest of an archive: the pages in the order in which their
/// groups were first used, and the files that belong to no group.
#[derive(Debug, PartialEq, Eq)]
pub struct Manifest {
    pub pages: Vec<ManifestPage>,
    pub simple_mods: Vec<ManifestMod>,
}

/// One file of a mod as the manifest lists it, in the abstract.
pub ghost struct ModText {
    pub full_path: Seq<char>,
    pub dat_file: Seq<char>,
}

/// One option with its files, in the abstract.
pub ghost struct OptionText {
    pub name: Seq<char>,
    pub description: Option<Seq<char>>,
    pub image_path: Option<Seq<char>>,
    pub mods: Seq<ModText>,
}

/// One page of the manifest, in the abstract.
pub ghost struct PageText {
    pub group_name: Seq<char>,
    pub selection_type: SelectionType,
    pub options: Seq<OptionText>,
    pub page_index: int,
}

/// The manifest of an archive, in the abstract.
pub ghost struct ManifestText {
    pub pages: Seq<PageText>,
    pub simple_mods: Seq<ModText>,
}

/// The text of an optional string.
pub open spec fn opt_text(s: Option<String>) -> Option<Seq<char>> {
    match s {
        Some(t) => Some(t@),
        None => None,
    }
}

impl View for ManifestMod {
    type V = ModText;

    open spec fn view(&self) -> ModText {
        ModText { full_path: self.full_path@, dat_file: self.dat_file@ }
    }
}

impl View for ManifestOption {
    type V = OptionText;

    open spec fn view(&self) -> OptionText {
        OptionText {
            name: self.name@,
            description: opt_text(self.description),
            image_path: opt_text(self.image_path),
            mods: self.mods@.map_values(|m: ManifestMod| m@),
        }
    }
}

impl View for ManifestPage {
    type V = PageText;

    open spec fn view(&self) -> PageText {
        PageText {
            group_name: self.group_name@,
            selection_type: self.selection_type,
            options: self.options@.map_values(|o: ManifestOption| o@),
            page_index: self.page_index as int,
        }
    }
}

impl View for Manifest {
    type V = ManifestText;

    open spec fn view(&self) -> ManifestText {
        ManifestText {
            pages: self.pages@.map_values(|p: ManifestPage| p@),
            simple_mods: self.simple_mods@.map_values(|m: ManifestMod| m@),
        }
    }
}

/// Whether a page is that of the group `name`.
pub open spec fn has_page(pages: Seq<PageText>, name: Seq<char>) -> bool {
    exists|i: int| 0 <= i < pages.len() && (#[trigger] pages[i]).group_name == name
}

/// The place of the page of the group `name`.
pub open spec fn page_place(pages: Seq<PageText>, name: Seq<char>) -> int {
    choose|i: int| 0 <= i < pages.len() && (#[trigger] pages[i]).group_name == name
}

/// Whether the caller described a group `name`.
pub open spec fn has_group(groups: Seq<Group>, name: Seq<char>) -> bool {
    exists|i: int| 0 <= i < groups.len() && (#[trigger] groups[i]).name@ == name
}

/// The place of the last description of the group `name`: where a name is
/// described twice, the later description stands.
pub open spec fn group_place(groups: Seq<Group>, name: Seq<char>) -> int {
    choose|i: int|
        0 <= i < groups.len() && (#[trigger] groups[i]).name@ == name && forall|j: int|
            i < j < groups.len() ==> (#[trigger] groups[j]).name@ != name
}

/// Whether an option is called `name`.
pub open spec fn has_option(options: Seq<OptionText>, name: Seq<char>) -> bool {
    exists|i: int| 0 <= i < options.len() && (#[trigger] options[i]).name == name
}

/// The place of the first option called `name`.
pub open spec fn option_place(options: Seq<OptionText>, name: Seq<char>) -> int {
    choose|i: int|
        0 <= i < options.len() && (#[trigger] options[i]).name == name && forall|j: int|
            0 <= j < i ==> (#[trigger] options[j]).name != name
}

/// An option as the caller describes it, still without files.
pub open spec fn blank_option(item: OptionItem) -> OptionText {
    OptionText {
        name: item.name@,
        description: opt_text(item.description),
        image_path: opt_text(item.image_path),
        mods: Seq::<ModText>::empty(),
    }
}

/// The page of a group as the caller describes it, still without files.
pub open spec fn blank_page(group: Group, index: int) -> PageText {
    PageText {
        group_name: group.name@,
        selection_type: group.selection_type,
        options: group.options@.map_values(|o: OptionItem| blank_option(o)),
        page_index: index,
    }
}

/// The page after a file was listed under the first option called
/// `option`; a page without such an option stays as it is.
#[verifier::opaque]
pub open spec fn with_mod(page: PageText, option: Seq<char>, item: ModText) -> PageText {
    if has_option(page.options, option) {
        let at = option_place(page.options, option);
        PageText {
            options: page.options.update(
                at,
                OptionText { mods: page.options[at].mods.push(item), ..page.options[at] },
            ),
            ..page
        }
    } else {
        page
    }
}

/// The pages with one for the group `name`: as they are where the group
/// has a page, else with a blank page at the end.
#[verifier::opaque]
pub open spec fn opened(pages: Seq<PageText>, groups: Seq<Group>, name: Seq<char>) -> Result<
    Seq<PageText>,
    ManifestError,
> {
    if has_page(pages, name) {
        Ok(pages)
    } else if !has_group(groups, name) {
        Err(ManifestError::UnknownGroup)
    } else if pages.len() > i32::MAX {
        Err(ManifestError::TooManyPages)
    } else {
        Ok(pages.push(blank_page(groups[group_place(groups, name)], pages.len() as int)))
    }
}

/// The manifest after one use of a payload was listed: a use without group
/// and option among the files that belong to no group, any other under its
/// option on the page of its group.
#[verifier::opaque]
pub open spec fn placed(
    m: ManifestText,
    groups: Seq<Group>,
    usage: GroupOptionGameArchive,
) -> Result<ManifestText, ManifestError> {
    let item = ModText { full_path: usage.2@, dat_file: dat_code_of(usage.2@) };
    match (usage.0, usage.1) {
        (None, None) => Ok(ManifestText { simple_mods: m.simple_mods.push(item), ..m }),
        (Some(group), Some(option)) => match opened(m.pages, groups, group@) {
            Ok(pages) => {
                let at = page_place(pages, group@);
                Ok(ManifestText { pages: pages.update(at, with_mod(pages[at], option@, item)), ..m })
            },
            Err(e) => Err(e),
        },
        _ => Err(ManifestError::HalfNamed),
    }
}

/// The manifest after a run of uses was listed.
pub open spec fn placed_all(groups: Seq<Group>, uses: Seq<GroupOptionGameArchive>) -> Result<
    ManifestText,
    ManifestError,
>
    decreases uses.len(),
{
    if uses.len() == 0 {
        Ok(ManifestText { pages: Seq::<PageText>::empty(), simple_mods: Seq::<ModText>::empty() })
    } else {
        match placed_all(groups, uses.drop_last()) {
            Ok(m) => placed(m, groups, uses.last()),
            Err(e) => Err(e),
        }
    }
}

/// All the uses of all the payloads, payload after payload.
pub open spec fn uses_of(needed: Seq<(String, Vec<GroupOptionGameArchive>)>) -> Seq<
    GroupOptionGameArchive,
>
    decreases needed.len(),
{
    if needed.len() == 0 {
        Seq::<GroupOptionGameArchive>::empty()
    } else {
        uses_of(needed.drop_last()) + needed.last().1@
    }
}

/// Every group has one page at most, and the pages are numbered in their
/// order.
pub open spec fn pages_ok(pages: Seq<PageText>) -> bool {
    &&& forall|i: int, j: int|
        0 <= i < j < pages.len() ==> (#[trigger] pages[i]).group_name != (
        #[trigger] pages[j]).group_name
    &&& forall|i: int| 0 <= i < pages.len() ==> (#[trigger] pages[i]).page_index == i
}

/// Where a group is described, its last description is at `group_place`.
pub proof fn lemma_group_place(groups: Seq<Group>, name: Seq<char>, from: int)
    requires
        0 <= from < groups.len(),
        groups[from].name@ == name,
    ensures
        0 <= group_place(groups, name) < groups.len(),
        groups[group_place(groups, name)].name@ == name,
        forall|j: int|
            group_place(groups, name) < j < groups.len() ==> (#[trigger] groups[j]).name@ != name,
    decreases groups.len() - from,
{
    if exists|j: int| from < j < groups.len() && (#[trigger] groups[j]).name@ == name {
        let j = choose|j: int| from < j < groups.len() && (#[trigger] groups[j]).name@ == name;
        lemma_group_place(groups, name, j);
    } else {
        assert(0 <= from < groups.len() && groups[from].name@ == name && forall|j: int|
            from < j < groups.len() ==> (#[trigger] groups[j]).name@ != name);
    }
}

/// Where an option is called `name`, the first such option is at
/// `option_place`.
pub proof fn lemma_option_place(options: Seq<OptionText>, name: Seq<char>, from: int)
    requires
        0 <= from < options.len(),
        options[from].name == name,
    ensures
        0 <= option_place(options, name) < options.len(),
        options[option_place(options, name)].name == name,
        forall|j: int| 0 <= j < option_place(options, name) ==> (#[trigger] options[j]).name != name,
    decreases from,
{
    if exists|j: int| 0 <= j < from && (#[trigger] options[j]).name == name {
        let j = choose|j: int| 0 <= j < from && (#[trigger] options[j]).name == name;
        lemma_option_place(options, name, j);
    } else {
        assert(0 <= from < options.len() && options[from].name == name && forall|j: int|
            0 <= j < from ==> (#[trigger] options[j]).name != name);
    }
}

/// Listing a use keeps one page for each group, numbered in order.
pub proof fn lemma_placed_keeps_pages(
    m: ManifestText,
    groups: Seq<Group>,
    usage: GroupOptionGameArchive,
)
    requires
        pages_ok(m.pages),
    ensures
        placed(m, groups, usage) matches Ok(now) ==> pages_ok(now.pages),
{
    reveal(placed);
    reveal(opened);
    reveal(with_mod);
    match (usage.0, usage.1) {
        (Some(group), Some(option)) => {
            match opened(m.pages, groups, group@) {
                Ok(pages) => {
                    assert(pages_ok(pages)) by {
                        if !has_page(m.pages, group@) {
                            let described = choose|i: int|
                                0 <= i < groups.len() && (#[trigger] groups[i]).name@ == group@;
                            lemma_group_place(groups, group@, described);
                            assert forall|i: int, j: int| 0 <= i < j < pages.len() implies (
                            #[trigger] pages[i]).group_name != (#[trigger] pages[j]).group_name by {
                                assert(pages[i] == m.pages[i]);
                                if j < m.pages.len() {
                                    assert(pages[j] == m.pages[j]);
                                }
                            }
                            assert forall|i: int| 0 <= i < pages.len() implies (
                            #[trigger] pages[i]).page_index == i by {
                                if i < m.pages.len() {
                                    assert(pages[i] == m.pages[i]);
                                }
                            }
                        }
                    }
                    if !has_page(m.pages, group@) {
                        let described = choose|i: int|
                            0 <= i < groups.len() && (#[trigger] groups[i]).name@ == group@;
                        lemma_group_place(groups, group@, described);
                        assert(pages[m.pages.len() as int].group_name == group@);
                    }
                    let at = page_place(pages, group@);
                    let now = pages.update(at, with_mod(pages[at], option@, item_of(usage)));
                    assert forall|i: int| 0 <= i < now.len() implies (#[trigger] now[i]).group_name
                        == pages[i].group_name && now[i].page_index == pages[i].page_index by {}
                    assert forall|i: int, j: int| 0 <= i < j < now.len() implies (
                    #[trigger] now[i]).group_name != (#[trigger] now[j]).group_name by {
                        assert(pages[i].group_name != pages[j].group_name);
                    }
                },
                Err(_) => {},
            }
        },
        _ => {},
    }
}

/// A use as the manifest lists it.
pub open spec fn item_of(usage: GroupOptionGameArchive) -> ModText {
    ModText { full_path: usage.2@, dat_file: dat_code_of(usage.2@) }
}

/// A manifest has one page for each group that was used, numbered in the
/// order in which the groups were first used.
pub proof fn lemma_pages_in_order(groups: Seq<Group>, uses: Seq<GroupOptionGameArchive>)
    ensures
        placed_all(groups, uses) matches Ok(m) ==> pages_ok(m.pages),
    decreases uses.len(),
{
    if uses.len() > 0 {
        lemma_pages_in_order(groups, uses.drop_last());
        match placed_all(groups, uses.drop_last()) {
            Ok(m) => {
                lemma_placed_keeps_pages(m, groups, uses.last());
            },
            Err(_) => {},
        }
    }
}

} // verus!
