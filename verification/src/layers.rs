//! Taskfile layers: the base `cjtasks` with the `production`, `staging`,
//! `development` and `local` overlays laid over it in that order. A later
//! layer replaces the tasks, environment entries and top-level help of the
//! earlier ones; only the base may hold versions.
use vstd::prelude::*;

use crate::error::{line_error, line_error_text, CjError};
use crate::runner::bump_directive_kind;
use crate::scan::{split_directive, split_directive_spec};
use crate::task_file::{find_task, task_views, FileModel, TaskEntry, TaskFile, TaskLineModel, TaskModel};
use crate::text::{append, append_str, decimal, push_decimal, str_chars, subvec};
use crate::vars::VarMap;

verus! {

/// The overlays in the order they are laid over the base.
pub open spec fn overlay_name(i: int) -> Seq<char> {
    if i == 0 {
        "production.cjtasks"@
    } else if i == 1 {
        "staging.cjtasks"@
    } else if i == 2 {
        "development.cjtasks"@
    } else {
        "local.cjtasks"@
    }
}

/// The overlay file names, in load order.
pub fn overlay_load_order() -> (r: Vec<&'static str>)
    ensures
        r@.len() == 4,
        forall|i: int| 0 <= i < 4 ==> #[trigger] r@[i]@ == overlay_name(i),
{
    let mut r: Vec<&'static str> = Vec::new();
    r.push("production.cjtasks");
    r.push("staging.cjtasks");
    r.push("development.cjtasks");
    r.push("local.cjtasks");
    r
}

/// A task line that bumps a version.
pub open spec fn is_bump_line(text: Seq<char>) -> bool {
    text.len() > 0 && text[0] == '@' && bump_directive_kind(split_directive_spec(text.drop_first()).0) is Some
}

/// The source line of the first version bump among task lines.
pub open spec fn first_bump(lines: Seq<TaskLineModel>) -> Option<nat>
    decreases lines.len(),
{
    if lines.len() == 0 {
        None
    } else if is_bump_line(lines[0].text) {
        Some(lines[0].line_number)
    } else {
        first_bump(lines.drop_first())
    }
}

pub open spec fn version_only_message() -> Seq<char> {
    "@version is only allowed in cjtasks"@
}

pub open spec fn bump_only_message() -> Seq<char> {
    "version bump directives are only allowed in cjtasks"@
}

pub open spec fn arity_message(name: Seq<char>, layer: Seq<char>, before: nat, after: nat) -> Seq<char> {
    "task '"@ + name + "' in "@ + layer + " overrides arity "@ + decimal(before) + " with arity "@
        + decimal(after)
}

/// What is wrong with one task of an overlay, against the tasks loaded so far.
pub open spec fn task_layer_error(loaded: Seq<TaskModel>, t: TaskModel, layer: Seq<char>) -> Option<Seq<char>> {
    match first_bump(t.lines) {
        Some(ln) => Some(line_error_text(layer, ln, bump_only_message())),
        None => match find_task(loaded, t.name) {
            Some(i) => if loaded[i].arguments.len() != t.arguments.len() {
                Some(arity_message(t.name, layer, loaded[i].arguments.len(), t.arguments.len()))
            } else {
                None
            },
            None => None,
        },
    }
}

/// The first problem among the tasks of an overlay.
pub open spec fn tasks_layer_error(loaded: Seq<TaskModel>, ts: Seq<TaskModel>, layer: Seq<char>) -> Option<
    Seq<char>,
>
    decreases ts.len(),
{
    if ts.len() == 0 {
        None
    } else {
        match task_layer_error(loaded, ts[0], layer) {
            Some(e) => Some(e),
            None => tasks_layer_error(loaded, ts.drop_first(), layer),
        }
    }
}

/// Why an overlay cannot be laid over the layers loaded so far: it declares
/// a version, a task of it bumps one, or a task of it changes the number of
/// arguments of a task it replaces.
pub open spec fn overlay_error(base: FileModel, layer: FileModel, name: Seq<char>) -> Option<Seq<char>> {
    if layer.versions.len() > 0 {
        Some(line_error_text(name, layer.versions[0].line_number, version_only_message()))
    } else {
        tasks_layer_error(base.tasks, layer.tasks, name)
    }
}

/// A task laid over a task list: it takes the place of the task with its
/// name, or comes last.
pub open spec fn put_task(tasks: Seq<TaskModel>, t: TaskModel) -> Seq<TaskModel> {
    match find_task(tasks, t.name) {
        Some(i) => tasks.update(i, t),
        None => tasks.push(t),
    }
}

pub open spec fn put_tasks(tasks: Seq<TaskModel>, ts: Seq<TaskModel>) -> Seq<TaskModel>
    decreases ts.len(),
{
    if ts.len() == 0 {
        tasks
    } else {
        put_tasks(put_task(tasks, ts[0]), ts.drop_first())
    }
}

/// The layers loaded so far with an overlay laid over them. An environment
/// entry of the overlay replaces an entry of the same name, of either kind.
pub open spec fn overlay_spec(base: FileModel, layer: FileModel) -> FileModel {
    FileModel {
        overrides: base.overrides.union_prefer_right(layer.overrides).remove_keys(layer.fallbacks.dom()),
        fallbacks: base.fallbacks.remove_keys(layer.overrides.dom()).union_prefer_right(layer.fallbacks),
        tasks: put_tasks(base.tasks, layer.tasks),
        help: match layer.help {
            Some(h) => Some(h),
            None => base.help,
        },
        versions: base.versions,
    }
}

fn is_bump_line_exec(text: &Vec<char>) -> (b: bool)
    ensures
        b == is_bump_line(text@),
{
    if text.len() == 0 || text[0] != '@' {
        return false;
    }
    let rest = subvec(text, 1, text.len());
    assert(rest@ =~= text@.drop_first());
    let (name, _) = split_directive(&rest);
    match crate::runner::bump_kind_exec(&name) {
        Some(_) => true,
        None => false,
    }
}

fn first_bump_exec(file: &TaskFile, t: usize) -> (r: Option<usize>)
    requires
        t < file@.tasks.len(),
    ensures
        match r {
            Some(ln) => first_bump(file@.tasks[t as int].lines) == Some(ln as nat),
            None => first_bump(file@.tasks[t as int].lines) is None,
        },
{
    let ghost lines = file@.tasks[t as int].lines;
    let n = file.line_count(t);
    let mut i: usize = 0;
    assert(lines.skip(0) =~= lines);
    while i < n
        invariant
            i <= n,
            n == lines.len(),
            t < file@.tasks.len(),
            lines == file@.tasks[t as int].lines,
            first_bump(lines) == first_bump(lines.skip(i as int)),
        decreases n - i,
    {
        let (ln, _, text) = file.line_at(t, i);
        assert(lines.skip(i as int)[0] == lines[i as int]);
        if is_bump_line_exec(&text) {
            return Some(ln);
        }
        assert(lines.skip(i as int).drop_first() =~= lines.skip(i + 1));
        i = i + 1;
    }
    None
}

fn arity_error(name: &Vec<char>, layer: &str, before: usize, after: usize) -> (e: CjError)
    ensures
        e@ == arity_message(name@, layer@, before as nat, after as nat),
{
    let mut m = str_chars("task '");
    append(&mut m, name);
    append_str(&mut m, "' in ");
    append_str(&mut m, layer);
    append_str(&mut m, " overrides arity ");
    push_decimal(&mut m, before as u64);
    append_str(&mut m, " with arity ");
    push_decimal(&mut m, after as u64);
    CjError::new(&m)
}

fn check_overlay(base: &TaskFile, layer: &TaskFile, name: &str) -> (r: Option<CjError>)
    ensures
        match r {
            Some(e) => overlay_error(base@, layer@, name@) == Some(e@),
            None => overlay_error(base@, layer@, name@) is None,
        },
{
    let p = str_chars(name);
    if layer.version_count() > 0 {
        let (_, ln, _) = layer.version_at(0);
        return Some(line_error(&p, ln, &str_chars("@version is only allowed in cjtasks")));
    }
    let ghost ts = layer@.tasks;
    let n = layer.task_count();
    let mut j: usize = 0;
    assert(ts.skip(0) =~= ts);
    while j < n
        invariant
            j <= n,
            n == ts.len(),
            ts == layer@.tasks,
            p@ == name@,
            layer@.versions.len() == 0,
            overlay_error(base@, layer@, name@) == tasks_layer_error(base@.tasks, ts.skip(j as int), name@),
        decreases n - j,
    {
        assert(ts.skip(j as int)[0] == ts[j as int]);
        assert(ts.skip(j as int).drop_first() =~= ts.skip(j + 1));
        match first_bump_exec(layer, j) {
            Some(ln) => {
                return Some(line_error(&p, ln, &str_chars("version bump directives are only allowed in cjtasks")));
            },
            None => {},
        }
        let tname = layer.task_name(j);
        match base.task_index(&tname) {
            Some(i) => {
                let before = base.argument_count(i);
                let after = layer.argument_count(j);
                if before != after {
                    return Some(arity_error(&tname, name, before, after));
                }
            },
            None => {},
        }
        j = j + 1;
    }
    None
}

fn put_task_exec(tasks: &mut Vec<TaskEntry>, t: TaskEntry)
    ensures
        task_views(final(tasks)@) == put_task(task_views(old(tasks)@), t@),
{
    let ghost tv = task_views(tasks@);
    let mut i: usize = 0;
    assert(tv.skip(0) =~= tv);
    while i < tasks.len()
        invariant
            i <= tasks.len(),
            tv == task_views(tasks@),
            tv == task_views(old(tasks)@),
            find_task(tv, t@.name) == crate::task_file::shift(find_task(tv.skip(i as int), t@.name), i as int),
        decreases tasks.len() - i,
    {
        assert(tv.skip(i as int)[0] == tv[i as int]);
        if crate::text::chars_eq(&tasks[i].name, &t.name) {
            let ghost tw = t@;
            assert(tv[i as int].name == tw.name);
            assert(find_task(tv.skip(i as int), tw.name) == Some(0int));
            assert(find_task(tv, tw.name) == Some(i as int));
            tasks.set(i, t);
            assert(task_views(tasks@) =~= tv.update(i as int, tw));
            return;
        }
        assert(tv.skip(i as int).drop_first() =~= tv.skip(i + 1));
        i = i + 1;
    }
    assert(tv.skip(i as int) =~= seq![]);
    tasks.push(t);
    assert(task_views(tasks@) =~= tv.push(t@));
}

/// Lays overlay `layer`, read from the file called `name`, over the layers
/// loaded so far. The overlay is refused, with the first problem, when it
/// declares a version, bumps one, or changes the arity of a task it
/// replaces; otherwise its tasks, environment entries and help replace
/// those loaded before.
pub fn overlay(base: TaskFile, layer: TaskFile, name: &str) -> (r: Result<TaskFile, CjError>)
    requires
        base.wf(),
        layer.wf(),
    ensures
        match overlay_error(base@, layer@, name@) {
            Some(m) => r matches Err(e) && e@ == m,
            None => r matches Ok(f) && f.wf() && f@ == overlay_spec(base@, layer@),
        },
{
    match check_overlay(&base, &layer, name) {
        Some(e) => return Err(e),
        None => {},
    }
    let ghost b = base@;
    let ghost l = layer@;
    let (mut ov, mut fb, mut tasks, help, versions) = base.into_parts();
    let (lov, lfb, ltasks, lhelp, _) = layer.into_parts();
    let ghost o0 = ov@;
    let ghost f0 = fb@;
    proof {
        lov.lemma_key_order();
        lfb.lemma_key_order();
    }
    let ghost ks = lov.key_order();
    let mut i: usize = 0;
    assert(ks.take(0).to_set() =~= Set::<Seq<char>>::empty());
    assert(ov@ =~= o0.union_prefer_right(lov@.restrict(ks.take(0).to_set())));
    assert(fb@ =~= f0.remove_keys(ks.take(0).to_set()));
    while i < lov.len()
        invariant
            i <= ks.len(),
            lov.wf(),
            ks == lov.key_order(),
            ov.wf(),
            fb.wf(),
            ov@ == o0.union_prefer_right(lov@.restrict(ks.take(i as int).to_set())),
            fb@ == f0.remove_keys(ks.take(i as int).to_set()),
        decreases ks.len() - i,
    {
        let (k, v) = lov.entry(i);
        proof {
            assert(ks.take(i + 1) =~= ks.take(i as int).push(ks[i as int]));
            ks.take(i as int).lemma_push_to_set_commute(ks[i as int]);
        }
        fb.remove(&k);
        ov.insert(k, v);
        assert(ov@ =~= o0.union_prefer_right(lov@.restrict(ks.take(i + 1).to_set())));
        assert(fb@ =~= f0.remove_keys(ks.take(i + 1).to_set()));
        i = i + 1;
    }
    proof {
        assert(ks.take(ks.len() as int) =~= ks);
        assert(ks.to_set() =~= lov@.dom());
        assert(lov@.restrict(lov@.dom()) =~= lov@);
    }
    let ghost o1 = ov@;
    let ghost f1 = fb@;
    let ghost kf = lfb.key_order();
    let mut i: usize = 0;
    assert(kf.take(0).to_set() =~= Set::<Seq<char>>::empty());
    assert(ov@ =~= o1.remove_keys(kf.take(0).to_set()));
    assert(fb@ =~= f1.union_prefer_right(lfb@.restrict(kf.take(0).to_set())));
    while i < lfb.len()
        invariant
            i <= kf.len(),
            lfb.wf(),
            kf == lfb.key_order(),
            ov.wf(),
            fb.wf(),
            ov@ == o1.remove_keys(kf.take(i as int).to_set()),
            fb@ == f1.union_prefer_right(lfb@.restrict(kf.take(i as int).to_set())),
        decreases kf.len() - i,
    {
        let (k, v) = lfb.entry(i);
        proof {
            assert(kf.take(i + 1) =~= kf.take(i as int).push(kf[i as int]));
            kf.take(i as int).lemma_push_to_set_commute(kf[i as int]);
        }
        ov.remove(&k);
        fb.insert(k, v);
        assert(ov@ =~= o1.remove_keys(kf.take(i + 1).to_set()));
        assert(fb@ =~= f1.union_prefer_right(lfb@.restrict(kf.take(i + 1).to_set())));
        i = i + 1;
    }
    proof {
        assert(kf.take(kf.len() as int) =~= kf);
        assert(kf.to_set() =~= lfb@.dom());
        assert(lfb@.restrict(lfb@.dom()) =~= lfb@);
        assert(ov@ =~= overlay_spec(b, l).overrides);
        assert(fb@ =~= overlay_spec(b, l).fallbacks);
    }
    let mut rest = ltasks;
    while rest.len() > 0
        invariant
            put_tasks(task_views(tasks@), task_views(rest@)) == put_tasks(b.tasks, l.tasks),
        decreases rest.len(),
    {
        let ghost before = task_views(rest@);
        let t = rest.remove(0);
        assert(task_views(rest@) =~= before.drop_first());
        assert(before[0] == t@);
        put_task_exec(&mut tasks, t);
    }
    let help = match lhelp {
        Some(h) => Some(h),
        None => help,
    };
    Ok(TaskFile::from_parts(ov, fb, tasks, help, versions))
}

/// The layers laid one over the other in order, or the first problem.
pub open spec fn layers_spec(acc: FileModel, ls: Seq<FileModel>, names: Seq<Seq<char>>) -> Result<FileModel, Seq<char>>
    decreases ls.len(),
{
    if ls.len() == 0 || names.len() == 0 {
        Ok(acc)
    } else {
        match overlay_error(acc, ls[0], names[0]) {
            Some(e) => Err(e),
            None => layers_spec(overlay_spec(acc, ls[0]), ls.drop_first(), names.drop_first()),
        }
    }
}

pub open spec fn file_views(v: Seq<TaskFile>) -> Seq<FileModel> {
    v.map_values(|f: TaskFile| f@)
}

pub open spec fn name_views(v: Seq<&str>) -> Seq<Seq<char>> {
    v.map_values(|s: &str| s@)
}

/// Lays the overlays, read from the files called `names`, over `base` (the
/// empty taskfile where there is no `cjtasks`), first to last.
pub fn lay_overlays(base: TaskFile, overlays: Vec<TaskFile>, names: &Vec<&str>) -> (r: Result<TaskFile, CjError>)
    requires
        base.wf(),
        forall|i: int| 0 <= i < overlays@.len() ==> (#[trigger] overlays@[i]).wf(),
        overlays@.len() == names@.len(),
    ensures
        match layers_spec(base@, file_views(overlays@), name_views(names@)) {
            Ok(m) => r matches Ok(f) && f.wf() && f@ == m,
            Err(m) => r matches Err(e) && e@ == m,
        },
{
    let ghost goal = layers_spec(base@, file_views(overlays@), name_views(names@));
    let mut acc = base;
    let mut rest = overlays;
    let mut k: usize = 0;
    let n = names.len();
    assert(name_views(names@).skip(0) =~= name_views(names@));
    while rest.len() > 0
        invariant
            acc.wf(),
            forall|i: int| 0 <= i < rest@.len() ==> (#[trigger] rest@[i]).wf(),
            k + rest@.len() == names@.len(),
            n == names@.len(),
            goal == layers_spec(base@, file_views(overlays@), name_views(names@)),
            layers_spec(acc@, file_views(rest@), name_views(names@).skip(k as int)) == goal,
        decreases rest.len(),
    {
        let ghost before = file_views(rest@);
        let ghost ns = name_views(names@).skip(k as int);
        let ghost rv = rest@;
        let layer = rest.remove(0);
        assert(layer == rv[0]);
        assert(rv[0].wf());
        assert(forall|i: int| 0 <= i < rest@.len() ==> rest@[i] == rv[i + 1]);
        assert(file_views(rest@) =~= before.drop_first());
        assert(ns.drop_first() =~= name_views(names@).skip(k + 1));
        assert(before[0] == layer@);
        assert(ns[0] == names@[k as int]@);
        assert(ns.len() > 0 && before.len() > 0);
        assert(k < names@.len());
        match overlay(acc, layer, names[k]) {
            Ok(f) => {
                acc = f;
            },
            Err(e) => {
                return Err(e);
            },
        }
        k = k + 1;
    }
    assert(file_views(rest@) =~= seq![]);
    Ok(acc)
}

/// `find_task` is the first position holding the name.
proof fn lemma_find_task_spec(tasks: Seq<TaskModel>, n: Seq<char>)
    ensures
        match find_task(tasks, n) {
            Some(i) => 0 <= i < tasks.len() && tasks[i].name == n && forall|k: int|
                0 <= k < i ==> #[trigger] tasks[k].name != n,
            None => forall|k: int| 0 <= k < tasks.len() ==> #[trigger] tasks[k].name != n,
        },
    decreases tasks.len(),
{
    if tasks.len() > 0 && tasks[0].name != n {
        lemma_find_task_spec(tasks.drop_first(), n);
        match find_task(tasks.drop_first(), n) {
            Some(i) => {
                assert forall|k: int| 0 <= k < i + 1 implies #[trigger] tasks[k].name != n by {
                    if k > 0 {
                        assert(tasks.drop_first()[k - 1] == tasks[k]);
                    }
                }
            },
            None => {
                assert forall|k: int| 0 <= k < tasks.len() implies #[trigger] tasks[k].name != n by {
                    if k > 0 {
                        assert(tasks.drop_first()[k - 1] == tasks[k]);
                    }
                }
            },
        }
    }
}

/// Two task lists with the same names at the same places find a name at
/// the same place.
proof fn lemma_find_task_same_names(a: Seq<TaskModel>, b: Seq<TaskModel>, n: Seq<char>)
    requires
        a.len() == b.len(),
        forall|k: int| 0 <= k < a.len() ==> #[trigger] a[k].name == b[k].name,
    ensures
        find_task(a, n) == find_task(b, n),
    decreases a.len(),
{
    if a.len() > 0 {
        assert forall|k: int| 0 <= k < a.drop_first().len() implies #[trigger] a.drop_first()[k].name
            == b.drop_first()[k].name by {
            assert(a.drop_first()[k] == a[k + 1]);
            assert(b.drop_first()[k] == b[k + 1]);
        }
        lemma_find_task_same_names(a.drop_first(), b.drop_first(), n);
        assert(a[0].name == b[0].name);
    }
}

/// Laying one task: its name now finds it; any other name finds what it
/// found before.
proof fn lemma_put_task(tasks: Seq<TaskModel>, t: TaskModel, n: Seq<char>)
    ensures
        n == t.name ==> (find_task(put_task(tasks, t), n) matches Some(i) && put_task(tasks, t)[i] == t),
        n != t.name ==> match find_task(tasks, n) {
            Some(i) => find_task(put_task(tasks, t), n) == Some(i) && put_task(tasks, t)[i] == tasks[i],
            None => find_task(put_task(tasks, t), n) is None,
        },
{
    lemma_find_task_spec(tasks, t.name);
    lemma_find_task_spec(tasks, n);
    let r = put_task(tasks, t);
    match find_task(tasks, t.name) {
        Some(j) => {
            assert forall|k: int| 0 <= k < tasks.len() implies #[trigger] r[k].name == tasks[k].name by {}
            lemma_find_task_same_names(r, tasks, n);
            if n == t.name {
                assert(find_task(r, n) == Some(j));
            }
        },
        None => {
            lemma_find_task_spec(r, n);
            if n == t.name {
                assert(r[tasks.len() as int].name == n);
                match find_task(r, n) {
                    Some(i) => {
                        if i < tasks.len() {
                            assert(r[i] == tasks[i]);
                        }
                    },
                    None => {},
                }
            } else {
                match find_task(tasks, n) {
                    Some(i) => {
                        assert(r[i] == tasks[i]);
                        match find_task(r, n) {
                            Some(q) => {
                                if q < i {
                                    assert(r[q] == tasks[q]);
                                }
                                if q > i {
                                    assert(r[i].name == n);
                                }
                            },
                            None => {
                                assert(r[i].name == n);
                            },
                        }
                    },
                    None => {
                        match find_task(r, n) {
                            Some(q) => {
                                if q < tasks.len() {
                                    assert(r[q] == tasks[q]);
                                }
                            },
                            None => {},
                        }
                    },
                }
            }
        },
    }
}

/// Laying tasks that do not name `n` leaves what `n` finds.
proof fn lemma_put_tasks_other(tasks: Seq<TaskModel>, ts: Seq<TaskModel>, n: Seq<char>)
    requires
        forall|k: int| 0 <= k < ts.len() ==> #[trigger] ts[k].name != n,
    ensures
        match find_task(tasks, n) {
            Some(i) => find_task(put_tasks(tasks, ts), n) == Some(i) && put_tasks(tasks, ts)[i] == tasks[i],
            None => find_task(put_tasks(tasks, ts), n) is None,
        },
    decreases ts.len(),
{
    if ts.len() > 0 {
        lemma_put_task(tasks, ts[0], n);
        assert forall|k: int| 0 <= k < ts.drop_first().len() implies #[trigger] ts.drop_first()[k].name
            != n by {
            assert(ts.drop_first()[k] == ts[k + 1]);
        }
        lemma_put_tasks_other(put_task(tasks, ts[0]), ts.drop_first(), n);
    }
}

/// Laying tasks that name `n` once, at `j`: `n` finds that task.
proof fn lemma_put_tasks_named(tasks: Seq<TaskModel>, ts: Seq<TaskModel>, j: int)
    requires
        0 <= j < ts.len(),
        forall|k: int| 0 <= k < ts.len() && k != j ==> #[trigger] ts[k].name != ts[j].name,
    ensures
        find_task(put_tasks(tasks, ts), ts[j].name) matches Some(i) && put_tasks(tasks, ts)[i] == ts[j],
    decreases ts.len(),
{
    let n = ts[j].name;
    let rest = ts.drop_first();
    if j == 0 {
        lemma_put_task(tasks, ts[0], n);
        assert forall|k: int| 0 <= k < rest.len() implies #[trigger] rest[k].name != n by {
            assert(rest[k] == ts[k + 1]);
        }
        lemma_put_tasks_other(put_task(tasks, ts[0]), rest, n);
    } else {
        assert(rest[j - 1] == ts[j]);
        assert forall|k: int| 0 <= k < rest.len() && k != j - 1 implies #[trigger] rest[k].name
            != rest[j - 1].name by {
            assert(rest[k] == ts[k + 1]);
        }
        lemma_put_tasks_named(put_task(tasks, ts[0]), rest, j - 1);
    }
}

/// Precedence of layers: a task that an overlay declares (once) is, after
/// the overlay is laid, the task that its name finds; a name the overlay
/// does not declare finds what it found in the layers below.
pub proof fn lemma_overlay_task_precedence(base: FileModel, layer: FileModel, n: Seq<char>)
    requires
        forall|a: int, b: int|
            0 <= a < b < layer.tasks.len() ==> #[trigger] layer.tasks[a].name != #[trigger] layer.tasks[b].name,
    ensures
        forall|j: int| 0 <= j < layer.tasks.len() && #[trigger] layer.tasks[j].name == n ==> (find_task(
            overlay_spec(base, layer).tasks,
            n,
        ) matches Some(i) && overlay_spec(base, layer).tasks[i] == layer.tasks[j]),
        (forall|j: int| 0 <= j < layer.tasks.len() ==> #[trigger] layer.tasks[j].name != n) ==> match find_task(
            base.tasks,
            n,
        ) {
            Some(i) => find_task(overlay_spec(base, layer).tasks, n) == Some(i) && overlay_spec(
                base,
                layer,
            ).tasks[i] == base.tasks[i],
            None => find_task(overlay_spec(base, layer).tasks, n) is None,
        },
{
    let ts = layer.tasks;
    assert forall|j: int| 0 <= j < ts.len() && #[trigger] ts[j].name == n implies (find_task(
        put_tasks(base.tasks, ts),
        n,
    ) matches Some(i) && put_tasks(base.tasks, ts)[i] == ts[j]) by {
        assert forall|k: int| 0 <= k < ts.len() && k != j implies #[trigger] ts[k].name != ts[j].name by {
            if k < j {
                assert(ts[k].name != ts[j].name);
            } else {
                assert(ts[j].name != ts[k].name);
            }
        }
        lemma_put_tasks_named(base.tasks, ts, j);
    }
    if forall|j: int| 0 <= j < ts.len() ==> #[trigger] ts[j].name != n {
        lemma_put_tasks_other(base.tasks, ts, n);
    }
}

/// Precedence of environment entries: an entry of an overlay is the entry
/// of that name afterwards, of the overlay's kind; entries the overlay does
/// not name stay as they were.
pub proof fn lemma_overlay_env_precedence(base: FileModel, layer: FileModel, k: Seq<char>)
    requires
        !(layer.overrides.contains_key(k) && layer.fallbacks.contains_key(k)),
    ensures
        layer.overrides.contains_key(k) ==> overlay_spec(base, layer).overrides.contains_key(k)
            && overlay_spec(base, layer).overrides[k] == layer.overrides[k] && !overlay_spec(
            base,
            layer,
        ).fallbacks.contains_key(k),
        layer.fallbacks.contains_key(k) ==> overlay_spec(base, layer).fallbacks.contains_key(k)
            && overlay_spec(base, layer).fallbacks[k] == layer.fallbacks[k] && !overlay_spec(
            base,
            layer,
        ).overrides.contains_key(k),
        !layer.overrides.contains_key(k) && !layer.fallbacks.contains_key(k) ==> overlay_spec(
            base,
            layer,
        ).overrides.contains_key(k) == base.overrides.contains_key(k) && overlay_spec(
            base,
            layer,
        ).fallbacks.contains_key(k) == base.fallbacks.contains_key(k) && (base.overrides.contains_key(k)
            ==> overlay_spec(base, layer).overrides[k] == base.overrides[k]) && (
        base.fallbacks.contains_key(k) ==> overlay_spec(base, layer).fallbacks[k] == base.fallbacks[k]),
{
}


/// How much an overlay counts: a layer laid later overrides one laid
/// earlier, from production up to local, which counts most.
pub open spec fn overlay_rank(name: Seq<char>) -> int {
    if name == "local.cjtasks"@ {
        3
    } else if name == "development.cjtasks"@ {
        2
    } else if name == "staging.cjtasks"@ {
        1
    } else if name == "production.cjtasks"@ {
        0
    } else {
        -1
    }
}

/// The load order lays each of the four overlays once, each after every
/// overlay that counts less, so `local.cjtasks` is laid last and wins.
pub proof fn lemma_overlays_load_by_rank()
    ensures
        forall|i: int| 0 <= i < 4 ==> overlay_rank(#[trigger] overlay_name(i)) == i,
        forall|i: int, j: int| 0 <= i < j < 4 ==> overlay_rank(#[trigger] overlay_name(i)) < overlay_rank(
            #[trigger] overlay_name(j),
        ),
        overlay_name(3) == "local.cjtasks"@,
{
    reveal_strlit("local.cjtasks");
    reveal_strlit("development.cjtasks");
    reveal_strlit("staging.cjtasks");
    reveal_strlit("production.cjtasks");
    assert("local.cjtasks"@.len() == 13);
    assert("development.cjtasks"@.len() == 19);
    assert("staging.cjtasks"@.len() == 15);
    assert("production.cjtasks"@.len() == 18);
}

} // verus!
