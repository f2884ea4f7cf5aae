use crate::delta::{
    GroupKind, PenumbraGroup, PenumbraStandardOption, PenumbraStandardOptionSimple,
};
use crate::text::{replaced, str_replace, texts};
use crate::text_set::{distinct, with_text, TextSet};
use vstd::prelude::*;

verus! {

/// A path with every backslash turned into a slash.
pub open spec fn normal(path: Seq<char>) -> Seq<char> {
    replaced(path, '\\', "/"@)
}

/// Brings the separators of a path into the one form.
pub fn normalize(path: &str) -> (out: String)
    ensures
        out@ == normal(path@),
{
    str_replace(path, '\\', "/")
}

/// The files that the options of one setting refer to, in their order.
pub open spec fn file_refs(simple: PenumbraStandardOptionSimple) -> Seq<Seq<char>> {
    simple.files@.map_values(|e: (String, String)| e.1@)
}

/// The files that a list of options refers to, option after option.
pub open spec fn options_refs(options: Seq<PenumbraStandardOption>) -> Seq<Seq<char>>
    decreases options.len(),
{
    if options.len() == 0 {
        Seq::<Seq<char>>::empty()
    } else {
        options_refs(options.drop_last()) + file_refs(options.last().simple)
    }
}

/// The files that a group refers to: those of its options, where the
/// group is of a kind that refers to files.
pub open spec fn group_refs(group: PenumbraGroup) -> Seq<Seq<char>> {
    match group.kind {
        GroupKind::Single { options } => options_refs(options@),
        GroupKind::Multi { options } => options_refs(options@),
        GroupKind::Imc { .. } => Seq::<Seq<char>>::empty(),
    }
}

/// The files that a list of groups refers to, group after group.
pub open spec fn groups_refs(groups: Seq<PenumbraGroup>) -> Seq<Seq<char>>
    decreases groups.len(),
{
    if groups.len() == 0 {
        Seq::<Seq<char>>::empty()
    } else {
        groups_refs(groups.drop_last()) + group_refs(groups.last())
    }
}

/// All the files that a mod refers to: those of the default option, then
/// those of the groups.
pub open spec fn all_refs(
    default: PenumbraStandardOptionSimple,
    groups: Seq<PenumbraGroup>,
) -> Seq<Seq<char>> {
    file_refs(default) + groups_refs(groups)
}

/// Each path of the list in its one form.
pub open spec fn normals(refs: Seq<Seq<char>>) -> Seq<Seq<char>> {
    refs.map_values(|r: Seq<char>| normal(r))
}

proof fn lemma_distinct_step(done: Seq<Seq<char>>, more: Seq<Seq<char>>, at: int)
    requires
        0 <= at < more.len(),
    ensures
        distinct(normals(done + more.take(at + 1))) == with_text(
            distinct(normals(done + more.take(at))),
            normal(more[at]),
        ),
{
    let longer = normals(done + more.take(at + 1));
    assert(longer.drop_last() =~= normals(done + more.take(at)));
    assert(longer.last() == normal(more[at]));
}

fn collect_simple(
    set: &mut TextSet,
    simple: &PenumbraStandardOptionSimple,
    Ghost(done): Ghost<Seq<Seq<char>>>,
)
    requires
        old(set).wf(),
        old(set)@ == distinct(normals(done)),
    ensures
        final(set).wf(),
        final(set)@ == distinct(normals(done + file_refs(*simple))),
{
    let ghost more = file_refs(*simple);
    let mut at: usize = 0;
    proof {
        assert(done + more.take(0) =~= done);
    }
    while at < simple.files.len()
        invariant
            at <= simple.files@.len(),
            more == file_refs(*simple),
            set.wf(),
            set@ == distinct(normals(done + more.take(at as int))),
        decreases simple.files@.len() - at,
    {
        proof {
            lemma_distinct_step(done, more, at as int);
        }
        set.insert(normalize(simple.files[at].1.as_str()));
        at = at + 1;
    }
    proof {
        assert(more.take(more.len() as int) =~= more);
    }
}

fn collect_options(
    set: &mut TextSet,
    options: &Vec<PenumbraStandardOption>,
    Ghost(done): Ghost<Seq<Seq<char>>>,
)
    requires
        old(set).wf(),
        old(set)@ == distinct(normals(done)),
    ensures
        final(set).wf(),
        final(set)@ == distinct(normals(done + options_refs(options@))),
{
    let mut at: usize = 0;
    proof {
        assert(done + options_refs(options@.take(0)) =~= done);
    }
    while at < options.len()
        invariant
            at <= options@.len(),
            set.wf(),
            set@ == distinct(normals(done + options_refs(options@.take(at as int)))),
        decreases options@.len() - at,
    {
        let ghost so_far = done + options_refs(options@.take(at as int));
        collect_simple(set, &options[at].simple, Ghost(so_far));
        proof {
            assert(options@.take(at + 1).drop_last() =~= options@.take(at as int));
            assert(options@.take(at + 1).last() == options@[at as int]);
            assert(so_far + file_refs(options@[at as int].simple) =~= done + options_refs(
                options@.take(at + 1),
            ));
        }
        at = at + 1;
    }
    proof {
        assert(options@.take(options@.len() as int) =~= options@);
    }
}

/// The files that a mod refers to, each in its one form and each once, in
/// the order in which they are first met: the default option first, then
/// the groups in their order.
pub fn referenced_paths(default: &PenumbraStandardOptionSimple, groups: &Vec<PenumbraGroup>) -> (paths:
    Vec<String>)
    ensures
        texts(paths@) == distinct(normals(all_refs(*default, groups@))),
{
    let mut set = TextSet::new();
    let ghost first = file_refs(*default);
    proof {
        assert(normals(Seq::<Seq<char>>::empty()) =~= Seq::<Seq<char>>::empty());
        assert(Seq::<Seq<char>>::empty() + first =~= first);
    }
    collect_simple(&mut set, default, Ghost(Seq::<Seq<char>>::empty()));
    let mut at: usize = 0;
    proof {
        assert(first + groups_refs(groups@.take(0)) =~= first);
    }
    while at < groups.len()
        invariant
            at <= groups@.len(),
            first == file_refs(*default),
            set.wf(),
            set@ == distinct(normals(first + groups_refs(groups@.take(at as int)))),
        decreases groups@.len() - at,
    {
        let ghost so_far = first + groups_refs(groups@.take(at as int));
        proof {
            assert(groups@.take(at + 1).drop_last() =~= groups@.take(at as int));
            assert(groups@.take(at + 1).last() == groups@[at as int]);
            assert(so_far + group_refs(groups@[at as int]) =~= first + groups_refs(
                groups@.take(at + 1),
            ));
        }
        match &groups[at].kind {
            GroupKind::Single { options } => {
                collect_options(&mut set, options, Ghost(so_far));
            },
            GroupKind::Multi { options } => {
                collect_options(&mut set, options, Ghost(so_far));
            },
            GroupKind::Imc { .. } => {
                proof {
                    assert(so_far + Seq::<Seq<char>>::empty() =~= so_far);
                }
            },
        }
        at = at + 1;
    }
    proof {
        assert(groups@.take(groups@.len() as int) =~= groups@);
    }
    set.into_vec()
}

/// The files of a list of options are those of its first options and
/// those of the rest.
pub proof fn lemma_options_refs_grow(options: Seq<PenumbraStandardOption>, upto: int)
    requires
        0 <= upto <= options.len(),
    ensures
        options_refs(options) == options_refs(options.take(upto)) + options_refs(
            options.skip(upto),
        ),
    decreases options.len(),
{
    if upto == options.len() {
        assert(options.take(upto) =~= options);
        assert(options.skip(upto) =~= Seq::<PenumbraStandardOption>::empty());
        assert(options_refs(options) + Seq::<Seq<char>>::empty() =~= options_refs(options));
    } else {
        let front = options.drop_last();
        let rest = options.skip(upto);
        assert(rest.drop_last() =~= front.skip(upto));
        assert(rest.last() == options.last());
        assert(front.take(upto) =~= options.take(upto));
        lemma_options_refs_grow(front, upto);
        assert(options_refs(options) =~= options_refs(options.take(upto)) + options_refs(rest));
    }
}

/// The files of a list of groups are those of its first groups and those
/// of the rest.
pub proof fn lemma_groups_refs_grow(groups: Seq<PenumbraGroup>, upto: int)
    requires
        0 <= upto <= groups.len(),
    ensures
        groups_refs(groups) == groups_refs(groups.take(upto)) + groups_refs(groups.skip(upto)),
    decreases groups.len(),
{
    if upto == groups.len() {
        assert(groups.take(upto) =~= groups);
        assert(groups.skip(upto) =~= Seq::<PenumbraGroup>::empty());
        assert(groups_refs(groups) + Seq::<Seq<char>>::empty() =~= groups_refs(groups));
    } else {
        let front = groups.drop_last();
        let rest = groups.skip(upto);
        assert(rest.drop_last() =~= front.skip(upto));
        assert(rest.last() == groups.last());
        assert(front.take(upto) =~= groups.take(upto));
        lemma_groups_refs_grow(front, upto);
        assert(groups_refs(groups) =~= groups_refs(groups.take(upto)) + groups_refs(rest));
    }
}

} // verus!
