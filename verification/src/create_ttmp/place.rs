use crate::create_ttmp::dat::dat_file_of;
use crate::create_ttmp::manifest::{
    blank_option, blank_page, group_place, has_group, has_option, lemma_group_place,
    lemma_option_place, lemma_placed_keeps_pages, opened, opt_text, option_place, page_place,
    pages_ok, placed, placed_all, uses_of, with_mod, Manifest, ManifestMod, ManifestOption,
    ManifestPage, ManifestText, ModText, PageText,
};
use crate::create_ttmp::ManifestError;
use crate::model::{Group, GroupOptionGameArchive, OptionItem};
use crate::text::str_eq;
use vstd::prelude::*;

verus! {

/// The texts of an optional string, copied.
fn copy_opt(s: &Option<String>) -> (copy: Option<String>)
    ensures
        opt_text(copy) == opt_text(*s),
{
    match s {
        Some(t) => Some(t.clone()),
        None => None,
    }
}

/// Looks for the page of the group `name`.
fn find_page(pages: &Vec<ManifestPage>, name: &str) -> (place: Option<usize>)
    ensures
        match place {
            Some(at) => at < pages@.len() && pages@[at as int].group_name@ == name@,
            None => forall|i: int| 0 <= i < pages@.len() ==> (#[trigger] pages@[i]).group_name@ != name@,
        },
{
    let mut at: usize = 0;
    while at < pages.len()
        invariant
            at <= pages@.len(),
            forall|i: int| 0 <= i < at ==> (#[trigger] pages@[i]).group_name@ != name@,
        decreases pages@.len() - at,
    {
        if str_eq(pages[at].group_name.as_str(), name) {
            return Some(at);
        }
        at = at + 1;
    }
    None
}

/// Looks for the last description of the group `name`.
fn find_group(groups: &Vec<Group>, name: &str) -> (place: Option<usize>)
    ensures
        match place {
            Some(at) => has_group(groups@, name@) && at == group_place(groups@, name@),
            None => !has_group(groups@, name@),
        },
{
    let mut at: usize = groups.len();
    while at > 0
        invariant
            at <= groups@.len(),
            forall|i: int| at <= i < groups@.len() ==> (#[trigger] groups@[i]).name@ != name@,
        decreases at,
    {
        at = at - 1;
        if str_eq(groups[at].name.as_str(), name) {
            proof {
                lemma_group_place(groups@, name@, at as int);
                let chosen = group_place(groups@, name@);
                if chosen < at {
                    assert(groups@[at as int].name@ != name@);
                } else if chosen > at {
                    assert(groups@[chosen].name@ != name@);
                }
            }
            return Some(at);
        }
    }
    None
}

/// Looks for the first option called `name`.
fn find_option(options: &Vec<ManifestOption>, name: &str) -> (place: Option<usize>)
    ensures
        match place {
            Some(at) => at < options@.len() && has_option(
                options@.map_values(|o: ManifestOption| o@),
                name@,
            ) && at == option_place(options@.map_values(|o: ManifestOption| o@), name@),
            None => !has_option(options@.map_values(|o: ManifestOption| o@), name@),
        },
{
    let ghost texts = options@.map_values(|o: ManifestOption| o@);
    let mut at: usize = 0;
    while at < options.len()
        invariant
            at <= options@.len(),
            texts == options@.map_values(|o: ManifestOption| o@),
            forall|i: int| 0 <= i < at ==> (#[trigger] texts[i]).name != name@,
        decreases options@.len() - at,
    {
        if str_eq(options[at].name.as_str(), name) {
            proof {
                assert(texts[at as int].name == name@);
                lemma_option_place(texts, name@, at as int);
                let chosen = option_place(texts, name@);
                if chosen < at {
                    assert(texts[chosen].name != name@);
                } else if chosen > at {
                    assert(texts[at as int].name != name@);
                }
            }
            return Some(at);
        }
        at = at + 1;
    }
    None
}

/// The page of a group, still without files.
fn new_page(group: &Group, index: i32) -> (page: ManifestPage)
    ensures
        page@ == blank_page(*group, index as int),
{
    let mut options: Vec<ManifestOption> = Vec::new();
    let mut at: usize = 0;
    let ghost want = group.options@.map_values(|o: OptionItem| blank_option(o));
    while at < group.options.len()
        invariant
            at <= group.options@.len(),
            want == group.options@.map_values(|o: OptionItem| blank_option(o)),
            options@.map_values(|o: ManifestOption| o@) == want.take(at as int),
        decreases group.options@.len() - at,
    {
        let item = &group.options[at];
        let ghost had = options@.map_values(|o: ManifestOption| o@);
        let option = ManifestOption {
            name: item.name.clone(),
            description: copy_opt(&item.description),
            image_path: copy_opt(&item.image_path),
            mods: Vec::new(),
        };
        proof {
            assert(option@.mods =~= Seq::<ModText>::empty());
            assert(option@ == blank_option(*item));
        }
        options.push(option);
        proof {
            assert(options@.map_values(|o: ManifestOption| o@) =~= had.push(option@));
            assert(want.take(at + 1) =~= want.take(at as int).push(want[at as int]));
        }
        at = at + 1;
    }
    proof {
        assert(want.take(want.len() as int) =~= want);
    }
    ManifestPage {
        group_name: group.name.clone(),
        selection_type: group.selection_type,
        options,
        page_index: index,
    }
}

/// Makes sure that the group `name` has a page, and says where it is.
fn open_page(manifest: &mut Manifest, groups: &Vec<Group>, name: &str) -> (outcome: Result<
    usize,
    ManifestError,
>)
    requires
        pages_ok(old(manifest)@.pages),
    ensures
        match outcome {
            Ok(at) => {
                &&& opened(old(manifest)@.pages, groups@, name@) == Ok::<
                    Seq<PageText>,
                    ManifestError,
                >(final(manifest)@.pages)
                &&& at < final(manifest).pages@.len()
                &&& at == page_place(final(manifest)@.pages, name@)
                &&& final(manifest)@.pages[at as int].group_name == name@
                &&& pages_ok(final(manifest)@.pages)
                &&& final(manifest).simple_mods == old(manifest).simple_mods
            },
            Err(e) => {
                &&& opened(old(manifest)@.pages, groups@, name@) == Err::<
                    Seq<PageText>,
                    ManifestError,
                >(e)
                &&& *final(manifest) == *old(manifest)
            },
        },
{
    reveal(opened);
    let ghost before = manifest@.pages;
    let at = match find_page(&manifest.pages, name) {
        Some(at) => {
            proof {
                assert(before[at as int].group_name == name@);
            }
            at
        },
        None => {
            proof {
                assert forall|i: int| 0 <= i < before.len() implies (#[trigger] before[i]).group_name
                    != name@ by {
                    assert(manifest.pages@[i].group_name@ != name@);
                }
            }
            let described = match find_group(groups, name) {
                Some(described) => described,
                None => {
                    return Err(ManifestError::UnknownGroup);
                },
            };
            let count = manifest.pages.len();
            if count > 0x7fff_ffff {
                return Err(ManifestError::TooManyPages);
            }
            proof {
                lemma_group_place(
                    groups@,
                    name@,
                    choose|i: int| 0 <= i < groups@.len() && (#[trigger] groups@[i]).name@ == name@,
                );
            }
            let page = new_page(&groups[described], count as i32);
            manifest.pages.push(page);
            proof {
                let pages = manifest@.pages;
                assert(pages =~= before.push(page@));
                assert(pages[count as int].group_name == name@);
                assert forall|i: int, j: int| 0 <= i < j < pages.len() implies (
                #[trigger] pages[i]).group_name != (#[trigger] pages[j]).group_name by {
                    assert(pages[i] == before[i]);
                    if j < before.len() {
                        assert(pages[j] == before[j]);
                    }
                }
                assert forall|i: int| 0 <= i < pages.len() implies (#[trigger] pages[i]).page_index
                    == i by {
                    if i < before.len() {
                        assert(pages[i] == before[i]);
                    }
                }
            }
            count
        },
    };
    proof {
        let pages = manifest@.pages;
        assert(pages[at as int].group_name == name@);
        let chosen = page_place(pages, name@);
        if chosen < at {
            assert(pages[chosen].group_name != pages[at as int].group_name);
        } else if chosen > at {
            assert(pages[at as int].group_name != pages[chosen].group_name);
        }
    }
    Ok(at)
}

/// Lists a file under the first option of a page that is called `option`,
/// if there is one.
fn list_under(page: &mut ManifestPage, option: &str, item: ManifestMod)
    ensures
        final(page)@ == with_mod(old(page)@, option@, item@),
{
    reveal(with_mod);
    let ghost had = page@.options;
    match find_option(&page.options, option) {
        Some(under) => {
            page.options[under].mods.push(item);
            proof {
                let have = page@.options;
                let should = with_mod(old(page)@, option@, item@).options;
                assert(have.len() == should.len());
                assert forall|k: int| 0 <= k < have.len() implies have[k] == should[k] by {
                    if k == under {
                        assert(have[k].mods =~= had[k].mods.push(item@));
                    } else {
                        assert(have[k] == had[k]);
                    }
                }
                assert(have =~= should);
            }
        },
        None => {},
    }
}

/// Lists one use of a payload in the manifest.
pub fn place(manifest: &mut Manifest, groups: &Vec<Group>, usage: &GroupOptionGameArchive) -> (outcome:
    Result<(), ManifestError>)
    requires
        pages_ok(old(manifest)@.pages),
    ensures
        match outcome {
            Ok(_) => placed(old(manifest)@, groups@, *usage) == Ok::<ManifestText, ManifestError>(
                final(manifest)@,
            ),
            Err(e) => placed(old(manifest)@, groups@, *usage) == Err::<ManifestText, ManifestError>(
                e,
            ) && *final(manifest) == *old(manifest),
        },
        pages_ok(final(manifest)@.pages),
{
    reveal(placed);
    let ghost before = manifest@;
    match (&usage.0, &usage.1) {
        (None, None) => {
            let item = ManifestMod {
                full_path: usage.2.clone(),
                dat_file: String::from_str(dat_file_of(usage.2.as_str())),
            };
            manifest.simple_mods.push(item);
            proof {
                assert(manifest@.simple_mods =~= before.simple_mods.push(item@));
                assert(manifest@.pages =~= before.pages);
            }
            Ok(())
        },
        (Some(group), Some(option)) => {
            let at = match open_page(manifest, groups, group.as_str()) {
                Ok(at) => at,
                Err(e) => {
                    return Err(e);
                },
            };
            let item = ManifestMod {
                full_path: usage.2.clone(),
                dat_file: String::from_str(dat_file_of(usage.2.as_str())),
            };
            let ghost pages = manifest@.pages;
            let ghost held = manifest.pages@;
            list_under(&mut manifest.pages[at], option.as_str(), item);
            proof {
                let now = manifest@.pages;
                let want = pages.update(at as int, with_mod(pages[at as int], option@, item@));
                assert(now.len() == want.len());
                assert forall|i: int| 0 <= i < now.len() implies now[i] == want[i] by {
                    if i != at {
                        assert(manifest.pages@[i] == held[i]);
                    }
                }
                assert(now =~= want);
                lemma_placed_keeps_pages(before, groups@, *usage);
            }
            Ok(())
        },
        _ => Err(ManifestError::HalfNamed),
    }
}

/// Lists a run of uses in the manifest, after those of `done`.
fn place_uses(
    manifest: &mut Manifest,
    groups: &Vec<Group>,
    uses: &Vec<GroupOptionGameArchive>,
    Ghost(done): Ghost<Seq<GroupOptionGameArchive>>,
) -> (outcome: Result<(), ManifestError>)
    requires
        pages_ok(old(manifest)@.pages),
        placed_all(groups@, done) == Ok::<ManifestText, ManifestError>(old(manifest)@),
    ensures
        match outcome {
            Ok(_) => placed_all(groups@, done + uses@) == Ok::<ManifestText, ManifestError>(
                final(manifest)@,
            ) && pages_ok(final(manifest)@.pages),
            Err(e) => placed_all(groups@, done + uses@) == Err::<ManifestText, ManifestError>(e),
        },
{
    let mut index: usize = 0;
    proof {
        assert(done + uses@.take(0) =~= done);
    }
    while index < uses.len()
        invariant
            index <= uses@.len(),
            pages_ok(manifest@.pages),
            placed_all(groups@, done + uses@.take(index as int)) == Ok::<
                ManifestText,
                ManifestError,
            >(manifest@),
        decreases uses@.len() - index,
    {
        proof {
            let longer = done + uses@.take(index + 1);
            assert(longer.drop_last() =~= done + uses@.take(index as int));
            assert(longer.last() == uses@[index as int]);
            lemma_failure_stays(groups@, longer, uses@.skip(index + 1));
            assert(longer + uses@.skip(index + 1) =~= done + uses@);
        }
        match place(manifest, groups, &uses[index]) {
            Ok(_) => {},
            Err(e) => {
                return Err(e);
            },
        }
        index = index + 1;
    }
    proof {
        assert(uses@.take(uses@.len() as int) =~= uses@);
    }
    Ok(())
}

/// Makes the manifest of an archive from the groups as the caller
/// describes them and all the uses of all the payloads.
pub fn build_manifest(groups: &Vec<Group>, needed: &Vec<(String, Vec<GroupOptionGameArchive>)>) -> (outcome:
    Result<Manifest, ManifestError>)
    ensures
        match outcome {
            Ok(manifest) => placed_all(groups@, uses_of(needed@)) == Ok::<
                ManifestText,
                ManifestError,
            >(manifest@),
            Err(e) => placed_all(groups@, uses_of(needed@)) == Err::<ManifestText, ManifestError>(e),
        },
{
    let mut manifest = Manifest { pages: Vec::new(), simple_mods: Vec::new() };
    proof {
        assert(manifest@.pages =~= Seq::<PageText>::empty());
        assert(manifest@.simple_mods =~= Seq::<ModText>::empty());
    }
    let mut at: usize = 0;
    while at < needed.len()
        invariant
            at <= needed@.len(),
            pages_ok(manifest@.pages),
            placed_all(groups@, uses_of(needed@.take(at as int))) == Ok::<
                ManifestText,
                ManifestError,
            >(manifest@),
        decreases needed@.len() - at,
    {
        let ghost done = uses_of(needed@.take(at as int));
        proof {
            assert(needed@.take(at + 1).drop_last() =~= needed@.take(at as int));
            assert(needed@.take(at + 1).last() == needed@[at as int]);
            lemma_uses_grow(needed@, at + 1);
            lemma_failure_stays(
                groups@,
                uses_of(needed@.take(at + 1)),
                uses_of(needed@.skip(at + 1)),
            );
        }
        match place_uses(&mut manifest, groups, &needed[at].1, Ghost(done)) {
            Ok(_) => {},
            Err(e) => {
                return Err(e);
            },
        }
        at = at + 1;
    }
    proof {
        assert(needed@.take(needed@.len() as int) =~= needed@);
    }
    Ok(manifest)
}

/// The uses of all payloads are those of the first payloads and those of
/// the rest.
pub proof fn lemma_uses_grow(needed: Seq<(String, Vec<GroupOptionGameArchive>)>, upto: int)
    requires
        0 <= upto <= needed.len(),
    ensures
        uses_of(needed) == uses_of(needed.take(upto)) + uses_of(needed.skip(upto)),
    decreases needed.len(),
{
    if upto == needed.len() {
        assert(needed.take(upto) =~= needed);
        assert(needed.skip(upto) =~= Seq::<(String, Vec<GroupOptionGameArchive>)>::empty());
        assert(uses_of(needed) + Seq::<GroupOptionGameArchive>::empty() =~= uses_of(needed));
    } else {
        let front = needed.drop_last();
        let rest = needed.skip(upto);
        assert(rest.drop_last() =~= front.skip(upto));
        assert(rest.last() == needed.last());
        assert(front.take(upto) =~= needed.take(upto));
        lemma_uses_grow(front, upto);
        assert(uses_of(needed) =~= uses_of(needed.take(upto)) + uses_of(rest));
    }
}

/// A failure is final: where a run of uses cannot be listed, no longer run
/// can.
pub proof fn lemma_failure_stays(
    groups: Seq<Group>,
    uses: Seq<GroupOptionGameArchive>,
    more: Seq<GroupOptionGameArchive>,
)
    ensures
        placed_all(groups, uses) matches Err(e) ==> placed_all(groups, uses + more) == Err::<
            ManifestText,
            ManifestError,
        >(e),
    decreases more.len(),
{
    if more.len() == 0 {
        assert(uses + more =~= uses);
    } else {
        lemma_failure_stays(groups, uses, more.drop_last());
        assert((uses + more).drop_last() =~= uses + more.drop_last());
    }
}

} // verus!
