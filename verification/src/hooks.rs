//! Hooks: the functions of a source file that carry the hook marker, grouped
//! by the file they live in, and the stubs rendered for them.

use crate::decl::{FuncDecl, FuncView};
use crate::directive::{Directive, DirectiveView};
use crate::tables::{group_slots, slots_get, slots_insert, slots_new};
use crate::text::{has_prefix, starts_with};
use fnv::FnvHashMap;
use vstd::prelude::*;

verus! {

/// The marker that a hook's name begins with.
pub const HOOK_MAGIC: &'static str = "AbcMini__";

/// The hooks of one file, in the order in which the directives gave them.
#[derive(Debug, PartialEq, Eq)]
pub struct FuncHooks {
    pub sourcefile: String,
    pub functions: Vec<FuncDecl>,
}

/// A group of hooks as contracts see it.
pub struct HooksView {
    pub sourcefile: Seq<char>,
    pub functions: Seq<FuncView>,
}

impl DeepView for FuncHooks {
    type V = HooksView;

    open spec fn deep_view(&self) -> HooksView {
        HooksView { sourcefile: self.sourcefile@, functions: self.functions.deep_view() }
    }
}

/// Whether `function` carries the hook marker.
pub open spec fn is_hook(function: FuncView) -> bool {
    starts_with(function.name, HOOK_MAGIC@)
}

/// The files of `groups`, in order.
pub open spec fn sourcefiles(groups: Seq<HooksView>) -> Seq<Seq<char>> {
    Seq::new(groups.len(), |i: int| groups[i].sourcefile)
}

/// The position of the first `file` among `files`, or `files.len()`.
pub open spec fn position(files: Seq<Seq<char>>, file: Seq<char>) -> int
    decreases files.len(),
{
    if files.len() == 0 || files[0] == file {
        0
    } else {
        1 + position(files.skip(1), file)
    }
}

/// `groups` with `function` at the end of the group of `file`; where `file`
/// has no group yet, a new one follows the others.
pub open spec fn add_hook(groups: Seq<HooksView>, file: Seq<char>, function: FuncView) -> Seq<
    HooksView,
> {
    let i = position(sourcefiles(groups), file);
    if 0 <= i < groups.len() {
        groups.update(
            i,
            HooksView { sourcefile: file, functions: groups[i].functions.push(function) },
        )
    } else {
        groups.push(HooksView { sourcefile: file, functions: seq![function] })
    }
}

/// `groups` with the hooks among `functions` added for `file`, in order.
pub open spec fn add_hooks(
    groups: Seq<HooksView>,
    file: Seq<char>,
    functions: Seq<FuncView>,
) -> Seq<HooksView>
    decreases functions.len(),
{
    if functions.len() == 0 {
        groups
    } else {
        let before = add_hooks(groups, file, functions.drop_last());
        if is_hook(functions.last()) {
            add_hook(before, file, functions.last())
        } else {
            before
        }
    }
}

/// The hooks that `directives` give, grouped by file. A group stands where
/// its first hook was met, and holds the hooks of its file in the order in
/// which they were met.
pub open spec fn collect_hooks(directives: Seq<DirectiveView>) -> Seq<HooksView>
    decreases directives.len(),
{
    if directives.len() == 0 {
        Seq::empty()
    } else {
        let before = collect_hooks(directives.drop_last());
        match directives.last() {
            DirectiveView::DefinedIn { filename, signature } => add_hooks(
                before,
                filename,
                seq![signature],
            ),
            DirectiveView::DefinedInList { filename, signatures } => add_hooks(
                before,
                filename,
                signatures,
            ),
            _ => before,
        }
    }
}

/// Every group holds at least one function, every function in a group is a
/// hook, and no two groups are of one file.
pub open spec fn well_grouped(groups: Seq<HooksView>) -> bool {
    &&& forall|g: int| 0 <= g < groups.len() ==> (#[trigger] groups[g]).functions.len() > 0
    &&& forall|g: int, j: int|
        0 <= g < groups.len() && 0 <= j < groups[g].functions.len() ==> is_hook(
            #[trigger] groups[g].functions[j],
        )
    &&& forall|g: int, h: int|
        0 <= g < h < groups.len() ==> (#[trigger] groups[g]).sourcefile != (
        #[trigger] groups[h]).sourcefile
}

/// The position lies within the list or at its end; where it lies within,
/// the file stands there, and it stands nowhere before.
pub proof fn lemma_position_bounds(files: Seq<Seq<char>>, file: Seq<char>)
    ensures
        0 <= position(files, file) <= files.len(),
        position(files, file) < files.len() ==> files[position(files, file)] == file,
        forall|j: int| 0 <= j < position(files, file) ==> files[j] != file,
    decreases files.len(),
{
    if files.len() == 0 || files[0] == file {
    } else {
        lemma_position_bounds(files.skip(1), file);
        assert forall|j: int| 0 <= j < position(files, file) implies files[j] != file by {
            if j > 0 {
                assert(files.skip(1)[j - 1] == files[j]);
            }
        }
    }
}

/// The position is the one place that holds the file after a run without
/// it.
pub proof fn lemma_position_is(files: Seq<Seq<char>>, file: Seq<char>, k: int)
    requires
        0 <= k <= files.len(),
        forall|j: int| 0 <= j < k ==> files[j] != file,
        k < files.len() ==> files[k] == file,
    ensures
        position(files, file) == k,
    decreases files.len(),
{
    if files.len() == 0 || files[0] == file {
    } else {
        assert forall|j: int| 0 <= j < k - 1 implies files.skip(1)[j] != file by {
            assert(files.skip(1)[j] == files[j + 1]);
        }
        lemma_position_is(files.skip(1), file, k - 1);
    }
}

/// Adding a hook keeps the groups well grouped.
pub proof fn lemma_add_hook_well_grouped(
    groups: Seq<HooksView>,
    file: Seq<char>,
    function: FuncView,
)
    requires
        well_grouped(groups),
        is_hook(function),
    ensures
        well_grouped(add_hook(groups, file, function)),
{
    let files = sourcefiles(groups);
    lemma_position_bounds(files, file);
    let i = position(files, file);
    let after = add_hook(groups, file, function);
    if i < groups.len() {
        assert(files[i] == groups[i].sourcefile);
        assert forall|g: int, j: int|
            0 <= g < after.len() && 0 <= j < after[g].functions.len() implies is_hook(
            #[trigger] after[g].functions[j],
        ) by {
            if g != i {
                assert(after[g] == groups[g]);
            } else if j < groups[i].functions.len() {
                assert(after[g].functions[j] == groups[i].functions[j]);
            }
        }
        assert forall|g: int, h: int| 0 <= g < h < after.len() implies (#[trigger] after[g]).sourcefile
            != (#[trigger] after[h]).sourcefile by {
            assert(after[g].sourcefile == groups[g].sourcefile);
            assert(after[h].sourcefile == groups[h].sourcefile);
        }
    } else {
        assert forall|g: int, h: int| 0 <= g < h < after.len() implies (#[trigger] after[g]).sourcefile
            != (#[trigger] after[h]).sourcefile by {
            assert(after[g] == groups[g]);
            assert(files[g] == groups[g].sourcefile);
            if h < groups.len() {
                assert(after[h] == groups[h]);
            }
        }
    }
}

/// Adding the hooks among some functions keeps the groups well grouped.
pub proof fn lemma_add_hooks_well_grouped(
    groups: Seq<HooksView>,
    file: Seq<char>,
    functions: Seq<FuncView>,
)
    requires
        well_grouped(groups),
    ensures
        well_grouped(add_hooks(groups, file, functions)),
    decreases functions.len(),
{
    if functions.len() > 0 {
        lemma_add_hooks_well_grouped(groups, file, functions.drop_last());
        if is_hook(functions.last()) {
            lemma_add_hook_well_grouped(
                add_hooks(groups, file, functions.drop_last()),
                file,
                functions.last(),
            );
        }
    }
}

/// Whatever the directives, no function without the hook marker reaches a
/// group, no group is empty, and each file has at most one group.
pub proof fn lemma_collect_hooks_well_grouped(directives: Seq<DirectiveView>)
    ensures
        well_grouped(collect_hooks(directives)),
    decreases directives.len(),
{
    if directives.len() > 0 {
        lemma_collect_hooks_well_grouped(directives.drop_last());
        let before = collect_hooks(directives.drop_last());
        match directives.last() {
            DirectiveView::DefinedIn { filename, signature } => {
                lemma_add_hooks_well_grouped(before, filename, seq![signature]);
            },
            DirectiveView::DefinedInList { filename, signatures } => {
                lemma_add_hooks_well_grouped(before, filename, signatures);
            },
            _ => {},
        }
    }
}

/// The functions of the group of `file`, or nothing where `file` has no
/// group.
pub open spec fn functions_in(groups: Seq<HooksView>, file: Seq<char>) -> Seq<FuncView> {
    let i = position(sourcefiles(groups), file);
    if 0 <= i < groups.len() {
        groups[i].functions
    } else {
        Seq::empty()
    }
}

/// The hooks among `functions`, in order.
pub open spec fn hooks_among(functions: Seq<FuncView>) -> Seq<FuncView>
    decreases functions.len(),
{
    if functions.len() == 0 {
        Seq::empty()
    } else if is_hook(functions.last()) {
        hooks_among(functions.drop_last()).push(functions.last())
    } else {
        hooks_among(functions.drop_last())
    }
}

/// The hooks that `directives` place in `file`, in order.
pub open spec fn hooks_of(directives: Seq<DirectiveView>, file: Seq<char>) -> Seq<FuncView>
    decreases directives.len(),
{
    if directives.len() == 0 {
        Seq::empty()
    } else {
        let before = hooks_of(directives.drop_last(), file);
        match directives.last() {
            DirectiveView::DefinedIn { filename, signature } => if filename == file {
                before + hooks_among(seq![signature])
            } else {
                before
            },
            DirectiveView::DefinedInList { filename, signatures } => if filename == file {
                before + hooks_among(signatures)
            } else {
                before
            },
            _ => before,
        }
    }
}

/// Adding a hook for one file lengthens the group of that file by the hook
/// and leaves the functions of every other file as they were.
pub proof fn lemma_add_hook_functions(
    groups: Seq<HooksView>,
    file: Seq<char>,
    function: FuncView,
    other: Seq<char>,
)
    ensures
        functions_in(add_hook(groups, file, function), other) == if other == file {
            functions_in(groups, file).push(function)
        } else {
            functions_in(groups, other)
        },
{
    let files = sourcefiles(groups);
    let after = add_hook(groups, file, function);
    lemma_position_bounds(files, file);
    lemma_position_bounds(files, other);
    let i = position(files, file);
    let k = position(files, other);
    if i < groups.len() {
        assert(sourcefiles(after) =~= files);
    } else {
        assert(sourcefiles(after) =~= files.push(file));
        if other == file {
            lemma_position_is(files.push(file), other, groups.len() as int);
            assert(functions_in(groups, file).push(function) =~= seq![function]);
        } else if k < files.len() {
            lemma_position_is(files.push(file), other, k);
        } else {
            lemma_position_is(files.push(file), other, groups.len() as int + 1);
        }
    }
}

/// Adding the hooks among some functions for one file lengthens the group
/// of that file by them and leaves the functions of every other file as
/// they were.
pub proof fn lemma_add_hooks_functions(
    groups: Seq<HooksView>,
    file: Seq<char>,
    functions: Seq<FuncView>,
    other: Seq<char>,
)
    ensures
        functions_in(add_hooks(groups, file, functions), other) == if other == file {
            functions_in(groups, file) + hooks_among(functions)
        } else {
            functions_in(groups, other)
        },
    decreases functions.len(),
{
    if functions.len() == 0 {
        assert(functions_in(groups, file) + hooks_among(functions) =~= functions_in(groups, file));
    } else {
        let front = functions.drop_last();
        lemma_add_hooks_functions(groups, file, front, other);
        if is_hook(functions.last()) {
            lemma_add_hook_functions(add_hooks(groups, file, front), file, functions.last(), other);
            assert((functions_in(groups, file) + hooks_among(front)).push(functions.last())
                =~= functions_in(groups, file) + hooks_among(functions));
        }
    }
}

/// The group of a file holds the hooks that the directives place in that
/// file, all of them and in their order; a file in which they place none
/// has no group.
pub proof fn lemma_collect_hooks_functions(directives: Seq<DirectiveView>, file: Seq<char>)
    ensures
        functions_in(collect_hooks(directives), file) == hooks_of(directives, file),
        position(sourcefiles(collect_hooks(directives)), file) < collect_hooks(directives).len()
            <==> hooks_of(directives, file).len() > 0,
    decreases directives.len(),
{
    lemma_collect_hooks_well_grouped(directives);
    lemma_position_bounds(sourcefiles(collect_hooks(directives)), file);
    if directives.len() > 0 {
        lemma_collect_hooks_functions(directives.drop_last(), file);
        let before = collect_hooks(directives.drop_last());
        match directives.last() {
            DirectiveView::DefinedIn { filename, signature } => {
                lemma_add_hooks_functions(before, filename, seq![signature], file);
            },
            DirectiveView::DefinedInList { filename, signatures } => {
                lemma_add_hooks_functions(before, filename, signatures, file);
            },
            _ => {},
        }
    }
}

/// Whether `slots` keeps, for each file with a group, the position of that
/// group, and nothing else.
pub open spec fn slots_agree(slots: Map<Seq<char>, usize>, groups: Seq<HooksView>) -> bool {
    forall|file: Seq<char>|
        {
            let i = position(sourcefiles(groups), file);
            if i < groups.len() {
                #[trigger] slots.contains_key(file) && slots[file] == i
            } else {
                !slots.contains_key(file)
            }
        }
}

/// Whether `name` begins with the hook marker.
pub fn is_hook_name(name: &str) -> (b: bool)
    ensures
        b == starts_with(name@, HOOK_MAGIC@),
{
    has_prefix(name, HOOK_MAGIC)
}

/// Puts `function` at the end of the group of `file`, or into a new last
/// group where `file` has none.
fn push_hook(
    groups: &mut Vec<FuncHooks>,
    slots: &mut FnvHashMap<String, usize>,
    file: &String,
    function: FuncDecl,
)
    requires
        slots_agree(group_slots(*old(slots)), old(groups).deep_view()),
    ensures
        final(groups).deep_view() == add_hook(
            old(groups).deep_view(),
            file@,
            function.deep_view(),
        ),
        slots_agree(group_slots(*final(slots)), final(groups).deep_view()),
{
    let ghost before = groups.deep_view();
    let ghost files = sourcefiles(before);
    proof {
        lemma_position_bounds(files, file@);
    }
    match slots_get(slots, file.as_str()) {
        Some(i) => {
            assert(files[i as int] == before[i as int].sourcefile);
            groups[i].functions.push(function);
            proof {
                let after = groups.deep_view();
                assert(after =~= add_hook(before, file@, function.deep_view())) by {
                    assert(after[i as int].functions =~= before[i as int].functions.push(
                        function.deep_view(),
                    ));
                }
                assert(sourcefiles(after) =~= files);
            }
        },
        None => {
            let i = groups.len();
            let mut functions: Vec<FuncDecl> = Vec::new();
            functions.push(function);
            groups.push(FuncHooks { sourcefile: file.clone(), functions });
            slots_insert(slots, file.clone(), i);
            proof {
                let after = groups.deep_view();
                assert(after.last().functions =~= seq![function.deep_view()]);
                assert(after =~= add_hook(before, file@, function.deep_view()));
                assert(sourcefiles(after) =~= files.push(file@));
                assert forall|other: Seq<char>|
                    {
                        let k = position(sourcefiles(after), other);
                        if k < after.len() {
                            #[trigger] group_slots(*slots).contains_key(other) && group_slots(
                                *slots,
                            )[other] == k
                        } else {
                            !group_slots(*slots).contains_key(other)
                        }
                    } by {
                    lemma_position_bounds(files, other);
                    let k = position(files, other);
                    if other == file@ {
                        lemma_position_is(files.push(file@), other, i as int);
                    } else if k < files.len() {
                        lemma_position_is(files.push(file@), other, k);
                    } else {
                        lemma_position_is(files.push(file@), other, i + 1);
                    }
                }
            }
        },
    }
}

/// The hooks that `directives` give, grouped by file.
pub fn generate_hooks(directives: &Vec<Directive>) -> (groups: Vec<FuncHooks>)
    ensures
        groups.deep_view() == collect_hooks(directives.deep_view()),
        well_grouped(groups.deep_view()),
{
    let mut groups: Vec<FuncHooks> = Vec::new();
    let mut slots = slots_new();
    let ghost all = directives.deep_view();
    let mut i: usize = 0;
    proof {
        assert(all.take(0) =~= Seq::empty());
        assert(groups.deep_view() =~= Seq::empty());
    }
    while i < directives.len()
        invariant
            i <= directives.len(),
            all == directives.deep_view(),
            groups.deep_view() == collect_hooks(all.take(i as int)),
            slots_agree(group_slots(slots), groups.deep_view()),
        decreases directives.len() - i,
    {
        let ghost before = groups.deep_view();
        proof {
            assert(all.take(i + 1).drop_last() =~= all.take(i as int));
            assert(all.take(i + 1).last() == directives@[i as int].deep_view());
        }
        match &directives[i] {
            Directive::DefinedIn { filename, signature } => {
                proof {
                    let one = seq![signature.deep_view()];
                    assert(one.drop_last() =~= Seq::empty());
                    assert(add_hooks(before, filename@, one.drop_last()) == before);
                }
                if is_hook_name(signature.name.as_str()) {
                    push_hook(&mut groups, &mut slots, filename, signature.clone());
                }
            },
            Directive::DefinedInList { filename, signatures } => {
                let ghost listed = signatures.deep_view();
                let mut j: usize = 0;
                proof {
                    assert(listed.take(0) =~= Seq::empty());
                }
                while j < signatures.len()
                    invariant
                        j <= signatures.len(),
                        listed == signatures.deep_view(),
                        groups.deep_view() == add_hooks(before, filename@, listed.take(j as int)),
                        slots_agree(group_slots(slots), groups.deep_view()),
                    decreases signatures.len() - j,
                {
                    proof {
                        assert(listed.take(j + 1).drop_last() =~= listed.take(j as int));
                    }
                    if is_hook_name(signatures[j].name.as_str()) {
                        push_hook(&mut groups, &mut slots, filename, signatures[j].clone());
                    }
                    j += 1;
                }
                proof {
                    assert(listed.take(j as int) =~= listed);
                }
            },
            _ => {},
        }
        i += 1;
    }
    proof {
        assert(all.take(i as int) =~= all);
        lemma_collect_hooks_well_grouped(all);
    }
    groups
}

} // verus!
