//! Paths as text: their components, and what is asked of a note's path.

use vstd::prelude::*;
use vstd::slice::slice_subrange;
use vstd::string::StringExecFns;

use crate::error::{AppError, ErrorView};
use crate::text::{
    chars_of, find, has_text, join, joined, lemma_find, lemma_find_is, lemma_find_none,
    lemma_tail_run, occurs_at, pieces, pieces_of, same, string_of, tail_run, tail_run_len, views,
    Class,
};

verus! {

// ---------- the model ----------

/// Whether a piece of a path between slashes is a component of its own: it is
/// not empty, and not a dot behind the start of the path.
pub open spec fn counts(p: Seq<char>, first: bool) -> bool {
    p.len() > 0 && (first || p != "."@)
}

/// The components among the pieces of a path.
pub open spec fn counted(ps: Seq<Seq<char>>) -> Seq<Seq<char>>
    decreases ps.len(),
{
    if ps.len() == 0 {
        seq![]
    } else if counts(ps.last(), ps.len() == 1) {
        counted(ps.drop_last()).push(ps.last())
    } else {
        counted(ps.drop_last())
    }
}

/// The components of a path: the root, where the path starts there, and the
/// names on the way. Repeated slashes, a slash at the end and dots on the way
/// are no components.
pub open spec fn components(path: Seq<char>) -> Seq<Seq<char>> {
    (if path.len() > 0 && path[0] == '/' {
        seq!["/"@]
    } else {
        seq![]
    }) + counted(pieces(path, "/"@))
}

/// Whether a path can be a note's: it is not empty, starts at no root and goes
/// up nowhere.
pub open spec fn acceptable(path: Seq<char>) -> bool {
    &&& path.len() > 0
    &&& !components(path).contains("/"@)
    &&& !components(path).contains(".."@)
}

/// Why a path cannot be a note's.
pub open spec fn objection(path: Seq<char>) -> Seq<char> {
    if path.len() == 0 {
        "source_file is empty"@
    } else {
        "source_file must be a relative path without '..': "@ + path
    }
}

/// The path of a file relative to a vault, or why there is none.
pub open spec fn relative(vault: Seq<char>, file: Seq<char>) -> Result<Seq<char>, Seq<char>> {
    let v = components(vault);
    let f = components(file);
    if !v.is_prefix_of(f) {
        Err(file + " is outside the vault "@ + vault)
    } else if f.len() == v.len() {
        Err("file resolves to the vault root itself, not a note"@)
    } else {
        Ok(join(f.skip(v.len() as int), "/"@))
    }
}

/// A name inside a directory.
pub open spec fn inside(dir: Seq<char>, name: Seq<char>) -> Seq<char> {
    if dir.len() == 0 || dir.last() == '/' {
        dir + name
    } else {
        dir + "/"@ + name
    }
}

/// What stands behind the last dot of a file's name, unless the name starts
/// with that dot.
pub open spec fn extension(name: Seq<char>) -> Option<Seq<char>> {
    let n = tail_run(name, Class::Except('.'));
    if n + 1 >= name.len() {
        None
    } else {
        Some(name.skip(name.len() - n))
    }
}

// ---------- the code ----------

/// The components of a path.
pub fn components_of(path: &str) -> (out: Vec<String>)
    ensures
        views(out@) == components(path@),
{
    proof {
        reveal_strlit("/");
    }
    let chars = chars_of(path);
    let mut out: Vec<String> = Vec::new();
    if chars.len() > 0 && chars[0] == '/' {
        out.push("/".to_string());
    }
    let ghost root = views(out@);
    assert(root =~= (if path@.len() > 0 && path@[0] == '/' {
        seq!["/"@]
    } else {
        seq![]
    }));
    let ps = pieces_of(path, "/");
    let ghost all = views(ps@);
    let n = ps.len();
    assert(root + counted(all.take(0)) =~= root);
    for i in 0..n
        invariant
            n == ps@.len(),
            all == views(ps@),
            views(out@) == root + counted(all.take(i as int)),
    {
        let ghost before = out@;
        assert(all.take(i + 1).drop_last() =~= all.take(i as int));
        let p = ps[i].as_str();
        if !p.is_empty() && (i == 0 || !same(p, ".")) {
            out.push(ps[i].clone());
            assert(views(out@) =~= views(before).push(all[i as int]));
        }
        assert(views(out@) =~= root + counted(all.take(i + 1)));
    }
    assert(all.take(n as int) =~= all);
    out
}

/// Whether a path can be a note's.
pub fn validate_source_file(source_file: &str) -> (r: Result<(), AppError>)
    ensures
        match r {
            Ok(_) => acceptable(source_file@),
            Err(e) => !acceptable(source_file@) && e@ == ErrorView::BadRequest(
                objection(source_file@),
            ),
        },
{
    if source_file.is_empty() {
        return Err(AppError::BadRequest("source_file is empty".to_string()));
    }
    let parts = components_of(source_file);
    if has_text(&parts, "/") || has_text(&parts, "..") {
        let mut message = "source_file must be a relative path without '..': ".to_string();
        message.append(source_file);
        return Err(AppError::BadRequest(message));
    }
    Ok(())
}

/// Whether a list begins with another.
fn begins_with(v: &Vec<String>, head: &Vec<String>) -> (b: bool)
    ensures
        b == views(head@).is_prefix_of(views(v@)),
{
    if head.len() > v.len() {
        return false;
    }
    let n = head.len();
    let mut i: usize = 0;
    while i < n
        invariant
            n == head@.len(),
            n <= v@.len(),
            i <= n,
            forall|j: int| 0 <= j < i ==> (#[trigger] head@[j])@ == v@[j]@,
        decreases n - i,
    {
        if v[i] != head[i] {
            assert(views(head@)[i as int] != views(v@).take(n as int)[i as int]);
            return false;
        }
        i = i + 1;
    }
    assert(views(head@) =~= views(v@).take(n as int));
    true
}

/// The path of a file relative to a vault, with slashes. Both paths are
/// absolute.
pub fn relativize(vault: &str, file: &str) -> (r: Result<String, String>)
    ensures
        match r {
            Ok(s) => relative(vault@, file@) == Ok::<Seq<char>, Seq<char>>(s@),
            Err(e) => relative(vault@, file@) == Err::<Seq<char>, Seq<char>>(e@),
        },
{
    let v = components_of(vault);
    let f = components_of(file);
    if !begins_with(&f, &v) {
        let mut message = file.to_string();
        message.append(" is outside the vault ");
        message.append(vault);
        return Err(message);
    }
    if f.len() == v.len() {
        return Err("file resolves to the vault root itself, not a note".to_string());
    }
    let mut rest: Vec<String> = Vec::new();
    let n = f.len();
    let start = v.len();
    let ghost all = views(f@);
    assert(views(rest@) =~= all.subrange(start as int, start as int));
    for i in start..n
        invariant
            n == f@.len(),
            start <= n,
            all == views(f@),
            views(rest@) == all.subrange(start as int, i as int),
    {
        let ghost before = rest@;
        rest.push(f[i].clone());
        assert(views(rest@) =~= views(before).push(all[i as int]));
        assert(views(rest@) =~= all.subrange(start as int, i + 1));
    }
    assert(views(rest@) =~= all.skip(start as int));
    Ok(joined(&rest, "/"))
}

/// A name inside a directory.
pub fn path_inside(dir: &str, name: &str) -> (p: String)
    ensures
        p@ == inside(dir@, name@),
{
    let chars = chars_of(dir);
    let n = chars.len();
    let mut p = dir.to_string();
    if n > 0 && chars[n - 1] != '/' {
        p.append("/");
    }
    p.append(name);
    p
}

/// Whether a file's name has an extension.
pub fn has_extension(name: &str, wanted: &str) -> (b: bool)
    ensures
        b == (extension(name@) == Some(wanted@)),
{
    let chars = chars_of(name);
    let n = tail_run_len(&chars, Class::Except('.'));
    proof {
        lemma_tail_run(name@, Class::Except('.'));
    }
    let len = chars.len();
    if n >= len || n + 1 == len {
        return false;
    }
    let tail = slice_subrange(&chars, len - n, len);
    assert(tail@ =~= name@.skip(len - n));
    same(string_of(tail).as_str(), wanted)
}

// ---------- laws ----------

/// Pieces that end in one more.
proof fn lemma_pieces_end(a: Seq<char>, b: Seq<char>)
    requires
        forall|i: int| 0 <= i < b.len() ==> b[i] != '/',
    ensures
        pieces(a + "/"@ + b, "/"@) == pieces(a, "/"@).push(b),
    decreases a.len(),
{
    let sep = "/"@;
    reveal_strlit("/");
    let s = a + sep + b;
    lemma_find(a, sep);
    match find(a, sep) {
        Some(at) => {
            let i = at as int;
            let rest = a.skip(i + 1);
            assert forall|j: int| 0 <= j < i implies !occurs_at(s, sep, j) by {
                assert(!occurs_at(a, sep, j));
                assert(s.subrange(j, j + 1) =~= a.subrange(j, j + 1));
            }
            assert(s.subrange(i, i + 1) =~= a.subrange(i, i + 1));
            lemma_find_is(s, sep, i);
            assert(s.skip(i + 1) =~= rest + sep + b);
            assert(s.take(i) =~= a.take(i));
            lemma_pieces_end(rest, b);
            assert(pieces(s, sep) =~= pieces(a, sep).push(b));
        },
        None => {
            let n = a.len() as int;
            assert forall|j: int| 0 <= j < n implies !occurs_at(s, sep, j) by {
                assert(!occurs_at(a, sep, j));
                assert(s.subrange(j, j + 1) =~= a.subrange(j, j + 1));
            }
            assert(s.subrange(n, n + 1) =~= sep);
            lemma_find_is(s, sep, n);
            assert(s.skip(n + 1) =~= b);
            assert(s.take(n) =~= a);
            lemma_no_slash(b);
            assert(pieces(s, sep) =~= pieces(a, sep).push(b));
        },
    }
}

/// A name without a slash is one piece.
proof fn lemma_no_slash(b: Seq<char>)
    requires
        forall|i: int| 0 <= i < b.len() ==> b[i] != '/',
    ensures
        pieces(b, "/"@) == seq![b],
{
    reveal_strlit("/");
    assert forall|j: int| 0 <= j <= b.len() implies !occurs_at(b, "/"@, j) by {
        if j + 1 <= b.len() && b.subrange(j, j + 1) == "/"@ {
            assert(b.subrange(j, j + 1)[0] == b[j]);
        }
    }
    lemma_find_none(b, "/"@);
}

/// Whether names can stand in a path one after another: none is empty, holds a
/// slash or is a dot.
pub open spec fn plain_names(parts: Seq<Seq<char>>) -> bool {
    forall|i: int|
        0 <= i < parts.len() ==> (#[trigger] parts[i]).len() > 0 && parts[i] != "."@ && forall|
            j: int,
        |
            0 <= j < parts[i].len() ==> parts[i][j] != '/'
}

proof fn lemma_pieces_of_join(parts: Seq<Seq<char>>)
    requires
        parts.len() > 0,
        plain_names(parts),
    ensures
        pieces(join(parts, "/"@), "/"@) == parts,
        counted(parts) == parts,
        join(parts, "/"@).len() > 0,
        join(parts, "/"@)[0] != '/',
    decreases parts.len(),
{
    let last = parts.last();
    assert(parts[parts.len() - 1] == last);
    assert(last[0] != '/');
    if parts.len() == 1 {
        lemma_no_slash(parts[0]);
        assert(parts =~= seq![parts[0]]);
        assert(counted(parts.drop_last()) =~= seq![]);
        assert(counted(parts) =~= parts);
    } else {
        let before = parts.drop_last();
        assert forall|i: int| 0 <= i < before.len() implies (#[trigger] before[i]).len() > 0
            && before[i] != "."@ && forall|j: int| 0 <= j < before[i].len() ==> before[i][j]
            != '/' by {
            assert(before[i] == parts[i]);
        }
        lemma_pieces_of_join(before);
        lemma_pieces_end(join(before, "/"@), last);
        assert(before.push(last) =~= parts);
    }
}

/// A path made of plain names has those names as its components.
pub proof fn law_components_of_joined_names(parts: Seq<Seq<char>>)
    requires
        parts.len() > 0,
        plain_names(parts),
    ensures
        components(join(parts, "/"@)) == parts,
{
    lemma_pieces_of_join(parts);
    assert(components(join(parts, "/"@)) =~= parts);
}

/// What a push sends, the server takes: the path of a file relative to a vault
/// is acceptable as a note's, where both are absolute and without going up.
pub proof fn law_relative_paths_are_acceptable(vault: Seq<char>, file: Seq<char>)
    requires
        vault.len() > 0 && vault[0] == '/',
        !components(file).contains(".."@),
    ensures
        relative(vault, file) matches Ok(r) ==> acceptable(r),
{
    let v = components(vault);
    let f = components(file);
    if v.is_prefix_of(f) && f.len() > v.len() {
        let parts = f.skip(v.len() as int);
        assert(v[0] == "/"@);
        lemma_counted_names(file);
        let root: int = if file.len() > 0 && file[0] == '/' {
            1
        } else {
            0
        };
        let names = counted(pieces(file, "/"@));
        assert forall|i: int| 0 <= i < parts.len() implies (#[trigger] parts[i]).len() > 0
            && parts[i] != "."@ && forall|j: int| 0 <= j < parts[i].len() ==> parts[i][j]
            != '/' by {
            assert(parts[i] == f[i + v.len()]);
            assert(f[i + v.len()] == names[i + v.len() - root]);
            assert(f[0] == v.take(v.len() as int)[0]);
            if root == 0 {
                assert(names[0] == "/"@);
                reveal_strlit("/");
                assert(names[0][0] == '/');
                assert(false);
            }
        }
        law_components_of_joined_names(parts);
        lemma_pieces_of_join(parts);
        assert forall|i: int| 0 <= i < parts.len() implies parts[i] != "/"@ && parts[i]
            != ".."@ by {
            reveal_strlit("/");
            assert(parts[i][0] != '/');
            assert(f[i + v.len()] == parts[i]);
        }
    }
}

/// The names among a path's pieces hold no slash, and only the first can be a
/// dot, where the path starts with it.
proof fn lemma_counted_names(path: Seq<char>)
    ensures
        ({
            let names = counted(pieces(path, "/"@));
            forall|i: int|
                0 <= i < names.len() ==> (#[trigger] names[i]).len() > 0 && (forall|j: int|
                    0 <= j < names[i].len() ==> names[i][j] != '/') && (names[i] == "."@ ==> i == 0
                    && (path.len() > 0 && path[0] != '/'))
        }),
{
    lemma_piece_names(path);
    let ps = pieces(path, "/"@);
    lemma_counted(ps);
    reveal_strlit("/");
    lemma_find(path, "/"@);
    if path.len() > 0 && path[0] == '/' {
        assert(path.subrange(0, 1) =~= "/"@);
        assert(find(path, "/"@) == Some(0nat));
        assert(ps[0] =~= seq![]);
    }
    if path.len() == 0 {
        assert(ps[0] == path);
    }
}

/// No piece of a path holds a slash, and there is at least one piece.
proof fn lemma_piece_names(s: Seq<char>)
    ensures
        pieces(s, "/"@).len() > 0,
        forall|i: int, j: int|
            0 <= i < pieces(s, "/"@).len() && 0 <= j < pieces(s, "/"@)[i].len() ==> (
            #[trigger] pieces(s, "/"@)[i][j]) != '/',
    decreases s.len(),
{
    let sep = "/"@;
    reveal_strlit("/");
    lemma_find(s, sep);
    match find(s, sep) {
        Some(at) => {
            let rest = s.skip(at as int + 1);
            lemma_piece_names(rest);
            let ps = pieces(s, sep);
            assert forall|k: int, j: int| 0 <= k < ps.len() && 0 <= j < ps[k].len() implies (
            #[trigger] ps[k][j]) != '/' by {
                if k == 0 {
                    assert(ps[0][j] == s[j]);
                    assert(!occurs_at(s, sep, j));
                    if s[j] == '/' {
                        assert(s.subrange(j, j + 1) =~= sep);
                    }
                } else {
                    assert(ps[k] == pieces(rest, sep)[k - 1]);
                    assert(pieces(rest, sep)[k - 1][j] != '/');
                }
            }
        },
        None => {
            assert forall|k: int, j: int|
                0 <= k < pieces(s, sep).len() && 0 <= j < pieces(s, sep)[k].len() implies (
            #[trigger] pieces(s, sep)[k][j]) != '/' by {
                assert(pieces(s, sep)[k][j] == s[j]);
                assert(!occurs_at(s, sep, j));
                if s[j] == '/' {
                    assert(s.subrange(j, j + 1) =~= sep);
                }
            }
        },
    }
}

/// What counts among some pieces is one of them, not empty, and a dot only
/// where the first piece is one.
proof fn lemma_counted(ps: Seq<Seq<char>>)
    ensures
        forall|i: int|
            0 <= i < counted(ps).len() ==> ps.contains(#[trigger] counted(ps)[i]) && counted(
                ps,
            )[i].len() > 0 && (counted(ps)[i] == "."@ ==> i == 0 && ps[0] == "."@),
    decreases ps.len(),
{
    if ps.len() > 0 {
        let before = ps.drop_last();
        let few = counted(before);
        lemma_counted(before);
        assert forall|i: int| 0 <= i < counted(ps).len() implies ps.contains(
            #[trigger] counted(ps)[i],
        ) && counted(ps)[i].len() > 0 && (counted(ps)[i] == "."@ ==> i == 0 && ps[0] == "."@) by {
            if i < few.len() {
                assert(counted(ps)[i] == few[i]);
                assert(before.contains(few[i]));
                let k = choose|k: int| 0 <= k < before.len() && before[k] == few[i];
                assert(ps[k] == few[i]);
            } else {
                assert(ps[ps.len() - 1] == counted(ps)[i]);
                assert(counted(Seq::<Seq<char>>::empty()) =~= seq![]);
                if ps.len() == 1 {
                    assert(before =~= seq![]);
                }
            }
        }
    }
}

/// A name inside a directory adds that name to the directory's components.
pub proof fn law_name_inside_adds_a_component(dir: Seq<char>, name: Seq<char>)
    requires
        plain_names(seq![name]),
    ensures
        components(inside(dir, name)) == components(dir).push(name),
{
    reveal_strlit("/");
    let sep = "/"@;
    let path = inside(dir, name);
    let one = seq![name];
    assert(one[0] == name);
    lemma_no_slash(name);
    if dir.len() == 0 {
        assert(path =~= name);
        lemma_no_slash(dir);
        assert(counted(seq![dir].drop_last()) =~= seq![]);
        assert(counted(one.drop_last()) =~= seq![]);
        assert(components(path) =~= components(dir).push(name));
    } else if dir.last() == '/' {
        let d = dir.drop_last();
        assert(dir =~= d + sep + seq![]);
        assert(path =~= d + sep + name);
        lemma_pieces_end(d, seq![]);
        lemma_pieces_end(d, name);
        let ps = pieces(d, sep);
        lemma_piece_names(d);
        assert(ps.push(seq![]).drop_last() =~= ps);
        assert(ps.push(name).drop_last() =~= ps);
        assert(path[0] == dir[0]);
        assert(components(path) =~= components(dir).push(name));
    } else {
        lemma_pieces_end(dir, name);
        let ps = pieces(dir, sep);
        lemma_piece_names(dir);
        assert(ps.push(name).drop_last() =~= ps);
        assert(path[0] == dir[0]);
        assert(components(path) =~= components(dir).push(name));
    }
}

/// Slashes at the end of a path and dots on its way are no components; the root is
/// one, and a name on its own is.
pub proof fn law_slashes_and_dots_are_no_components(dir: Seq<char>, name: Seq<char>)
    requires
        dir.len() > 0,
        plain_names(seq![name]),
    ensures
        components(dir + "/"@) == components(dir),
        components(dir + "/."@) == components(dir),
        components(seq![]) == Seq::<Seq<char>>::empty(),
        components("/"@) == seq!["/"@],
        components(name) == seq![name],
        components("/"@ + name) == seq!["/"@, name],
{
    reveal_strlit("/");
    reveal_strlit(".");
    reveal_strlit("/.");
    let sep = "/"@;
    let none: Seq<char> = seq![];
    let ps = pieces(dir, sep);
    lemma_piece_names(dir);
    assert(dir + sep =~= dir + sep + none);
    assert(dir + "/."@ =~= dir + sep + "."@);
    lemma_pieces_end(dir, none);
    lemma_pieces_end(dir, "."@);
    assert(ps.push(none).drop_last() =~= ps);
    assert(ps.push("."@).drop_last() =~= ps);
    assert((dir + sep)[0] == dir[0]);
    assert((dir + "/."@)[0] == dir[0]);
    assert(components(dir + sep) =~= components(dir));
    assert(components(dir + "/."@) =~= components(dir));
    reveal_with_fuel(counted, 3);
    lemma_no_slash(none);
    assert(seq![none].drop_last() =~= seq![]);
    assert(counted(seq![none]) =~= seq![]);
    assert(components(none) =~= seq![]);
    lemma_pieces_end(none, none);
    assert(none + sep + none =~= sep);
    assert(seq![none].push(none).drop_last() =~= seq![none]);
    assert(counted(seq![none].push(none)) =~= seq![]);
    assert(components(sep) =~= seq![sep]);
    law_name_inside_adds_a_component(none, name);
    assert(inside(none, name) =~= name);
    assert(components(name) =~= seq![name]);
    law_name_inside_adds_a_component(sep, name);
    assert(components(sep + name) =~= seq![sep, name]);
}

/// A path that starts at the root is refused, and so is one that goes up anywhere,
/// and the empty one; names one below the other are not.
pub proof fn law_notes_stay_below_the_vault(path: Seq<char>, parts: Seq<Seq<char>>)
    ensures
        path.len() > 0 && path[0] == '/' ==> !acceptable(path),
        components(path).contains(".."@) ==> !acceptable(path),
        !acceptable(seq![]),
        parts.len() > 0 && plain_names(parts) ==> (acceptable(join(parts, "/"@))
            <==> !parts.contains(".."@)),
{
    if path.len() > 0 && path[0] == '/' {
        assert(components(path)[0] == "/"@);
    }
    if parts.len() > 0 && plain_names(parts) {
        lemma_pieces_of_join(parts);
        law_components_of_joined_names(parts);
        if parts.contains("/"@) {
            reveal_strlit("/");
            let i = choose|i: int| 0 <= i < parts.len() && parts[i] == "/"@;
            assert(parts[i][0] != '/');
        }
    }
}

/// A refused path is told why.
pub proof fn law_objections_name_the_path(path: Seq<char>)
    ensures
        path.len() == 0 ==> objection(path) == "source_file is empty"@,
        path.len() > 0 ==> objection(path)
            == "source_file must be a relative path without '..': "@ + path,
{
}

/// The path of a file relative to a vault is the names below the vault; a file that
/// is the vault itself or lies outside it has none.
pub proof fn law_relative_path_is_what_lies_below(
    vault: Seq<char>,
    file: Seq<char>,
    parts: Seq<Seq<char>>,
)
    ensures
        components(file) == components(vault) + parts && parts.len() > 0 ==> relative(vault, file)
            == Ok::<Seq<char>, Seq<char>>(join(parts, "/"@)),
        components(file) == components(vault) ==> relative(vault, file) == Err::<
            Seq<char>,
            Seq<char>,
        >("file resolves to the vault root itself, not a note"@),
        !components(vault).is_prefix_of(components(file)) ==> relative(vault, file) == Err::<
            Seq<char>,
            Seq<char>,
        >(file + " is outside the vault "@ + vault),
{
    let v = components(vault);
    let f = components(file);
    if f == v + parts && parts.len() > 0 {
        assert(v =~= f.take(v.len() as int));
        assert(f.skip(v.len() as int) =~= parts);
    }
    if f == v {
        assert(v =~= f.take(v.len() as int));
    }
}

/// A name inside a directory stands behind it and a slash, which is not doubled.
pub proof fn law_names_stand_behind_a_slash(dir: Seq<char>, name: Seq<char>)
    ensures
        dir.len() > 0 && dir.last() != '/' ==> inside(dir, name) == dir + "/"@ + name,
        inside(dir.push('/'), name) == dir.push('/') + name,
        inside(seq![], name) == name,
{
    assert(inside(seq![], name) =~= name);
}

/// An extension is what stands behind the last dot of a name, where something
/// stands before that dot.
pub proof fn law_extension_stands_behind_the_last_dot(stem: Seq<char>, ext: Seq<char>)
    requires
        !ext.contains('.'),
    ensures
        stem.len() > 0 ==> extension(stem + seq!['.'] + ext) == Some(ext),
        extension(seq!['.'] + ext) is None,
        extension(ext) is None,
{
    let k = Class::Except('.');
    let n = ext.len() as int;
    assert forall|i: int| 0 <= i < n implies ext[i] != '.' by {
        assert(ext.contains(ext[i]));
    }
    let name = stem + seq!['.'] + ext;
    assert forall|i: int| name.len() - n <= i < name.len() implies k.has(#[trigger] name[i]) by {
        assert(name[i] == ext[i - stem.len() - 1]);
    }
    assert(name[name.len() - n - 1] == '.');
    crate::text::lemma_tail_run_is(name, k, n);
    assert(name.skip(name.len() - n) =~= ext);
    let bare = seq!['.'] + ext;
    assert forall|i: int| bare.len() - n <= i < bare.len() implies k.has(#[trigger] bare[i]) by {
        assert(bare[i] == ext[i - 1]);
    }
    crate::text::lemma_tail_run_is(bare, k, n);
    crate::text::lemma_tail_run_is(ext, k, n);
}

/// A path is taken for a note's or refused with the reason, and a file is known by
/// its path below the vault.
pub proof fn law_checked_paths(
    path: &str,
    r: Result<(), AppError>,
    vault: &str,
    file: &str,
    rel: Result<String, String>,
)
    ensures
        call_ensures(validate_source_file, (path,), r) ==> (r is Ok <==> acceptable(path@)) && (r
            matches Err(e) ==> e@ == ErrorView::BadRequest(objection(path@))),
        call_ensures(relativize, (vault, file), rel) ==> match rel {
            Ok(s) => relative(vault@, file@) == Ok::<Seq<char>, Seq<char>>(s@),
            Err(e) => relative(vault@, file@) == Err::<Seq<char>, Seq<char>>(e@),
        },
{
}

} // verus!
