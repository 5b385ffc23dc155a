//! Lexical paths: file names, extensions, parents and joining.
//!
//! A path is text with `/` between its components. Repeated separators, `.`
//! components other than a leading one, and trailing separators mean nothing.

use vstd::prelude::*;

use crate::text;

verus! {

// ---------------------------------------------------------------------------
// Meaning
// ---------------------------------------------------------------------------

/// `p` without the separators and `.` components at its end.
pub open spec fn strip_tail(p: Seq<char>) -> Seq<char>
    decreases p.len(),
{
    if p.len() > 1 && (p.last() == '/' || (p.last() == '.' && p[p.len() - 2] == '/')) {
        strip_tail(p.drop_last())
    } else {
        p
    }
}

/// Where the last component of a stripped path begins.
pub open spec fn name_start(t: Seq<char>) -> int {
    text::last_index(t, '/') + 1
}

/// The last component of `p`, unless it is the root, `.` or `..`.
pub open spec fn file_name(p: Seq<char>) -> Option<Seq<char>> {
    let t = strip_tail(p);
    let name = t.skip(name_start(t));
    if name.len() == 0 || name == seq!['.'] || name == seq!['.', '.'] {
        None
    } else {
        Some(name)
    }
}

/// `p` without its last component; nothing for an empty path and the root.
pub open spec fn parent(p: Seq<char>) -> Option<Seq<char>> {
    let t = strip_tail(p);
    if name_start(t) == t.len() {
        None
    } else {
        Some(strip_tail(t.take(name_start(t))))
    }
}

/// Where the extension's dot stands in a file name. A leading dot starts no
/// extension.
pub open spec fn extension_dot(name: Seq<char>) -> Option<int> {
    let dot = text::last_index(name, '.');
    if dot > 0 {
        Some(dot)
    } else {
        None
    }
}

/// The part of the file name behind its last dot.
pub open spec fn extension(p: Seq<char>) -> Option<Seq<char>> {
    match file_name(p) {
        Some(name) => match extension_dot(name) {
            Some(dot) => Some(name.skip(dot + 1)),
            None => None,
        },
        None => None,
    }
}

/// The file name without its extension.
pub open spec fn file_stem(p: Seq<char>) -> Option<Seq<char>> {
    match file_name(p) {
        Some(name) => match extension_dot(name) {
            Some(dot) => Some(name.take(dot)),
            None => Some(name),
        },
        None => None,
    }
}

/// `name` under the directory `base`.
pub open spec fn join(base: Seq<char>, name: Seq<char>) -> Seq<char> {
    if base.len() == 0 {
        name
    } else if base.last() == '/' {
        base + name
    } else {
        base.push('/') + name
    }
}

/// Whether `p` starts at the root.
pub open spec fn is_rooted(p: Seq<char>) -> bool {
    p.len() > 0 && p[0] == '/'
}

/// The components of `p`, from the outermost to the last.
pub open spec fn components(p: Seq<char>) -> Seq<Seq<char>>
    decreases p.len(),
{
    let t = strip_tail(p);
    if name_start(t) == t.len() {
        Seq::empty()
    } else {
        proof {
            lemma_strip_tail(p);
            text::lemma_last_index(t, '/');
        }
        components(t.take(name_start(t))).push(t.skip(name_start(t)))
    }
}

/// The place that `p` names: whether it starts at the root, and its
/// components.
pub open spec fn place(p: Seq<char>) -> (bool, Seq<Seq<char>>) {
    (is_rooted(p), components(p))
}

/// Whether two paths name the same place.
pub open spec fn same_path(a: Seq<char>, b: Seq<char>) -> bool {
    place(a) == place(b)
}

/// The components of `p` below the directory that it starts from.
pub open spec fn names(p: Seq<char>) -> Seq<Seq<char>> {
    let all = components(p);
    if all.len() > 0 && all[0] == seq!['.'] {
        all.skip(1)
    } else {
        all
    }
}

/// All of `names`, one under the other, under the directory `base`.
pub open spec fn join_all(base: Seq<char>, names: Seq<Seq<char>>) -> Seq<char>
    decreases names.len(),
{
    if names.len() == 0 {
        base
    } else {
        join(join_all(base, names.drop_last()), names.last())
    }
}

/// Where an absolute path starts: at the root, which two slashes, but not
/// three, write in a way of their own.
pub open spec fn root_of(p: Seq<char>) -> Seq<char> {
    if p.len() > 1 && p[1] == '/' && !(p.len() > 2 && p[2] == '/') {
        seq!['/', '/']
    } else {
        seq!['/']
    }
}

/// `p` as an absolute path, when it is taken to start from `directory`.
/// Nothing is looked up: `..` components stay. A trailing separator stays too.
pub open spec fn absolute(directory: Seq<char>, p: Seq<char>) -> Seq<char> {
    let base = if is_rooted(p) {
        root_of(p)
    } else {
        directory
    };
    let body = join_all(base, names(p));
    if p.len() > 0 && p.last() == '/' {
        join(body, Seq::empty())
    } else {
        body
    }
}

/// Whether `name` can stand as one component of a path.
pub open spec fn is_plain_name(name: Seq<char>) -> bool {
    &&& name.len() > 0
    &&& name != seq!['.']
    &&& forall|i: int| 0 <= i < name.len() ==> name[i] != '/'
}

// ---------------------------------------------------------------------------
// Facts
// ---------------------------------------------------------------------------

/// Stripping takes characters off the end only, and leaves no separator
/// there but the root's.
pub proof fn lemma_strip_tail(p: Seq<char>)
    ensures
        strip_tail(p).len() <= p.len(),
        strip_tail(p) == p.take(strip_tail(p).len() as int),
        p.len() > 0 ==> strip_tail(p).len() > 0,
        strip_tail(strip_tail(p)) == strip_tail(p),
        strip_tail(p).len() > 1 ==> strip_tail(p).last() != '/',
    decreases p.len(),
{
    if p.len() > 1 && (p.last() == '/' || (p.last() == '.' && p[p.len() - 2] == '/')) {
        lemma_strip_tail(p.drop_last());
        assert(p.drop_last().take(strip_tail(p).len() as int) == p.take(
            strip_tail(p).len() as int,
        ));
    } else {
        assert(p.take(p.len() as int) == p);
    }
}

/// The last component of a path, and the rest, make up its components.
pub proof fn lemma_components_of_parent(p: Seq<char>)
    ensures
        parent(p) is None <==> components(p).len() == 0,
        parent(p) is Some ==> components(p) == components(parent(p)->0).push(
            strip_tail(p).skip(name_start(strip_tail(p))),
        ),
        file_name(p) is Some ==> parent(p) is Some && components(p).last() == file_name(p)->0,
        parent(p) is Some ==> (is_rooted(parent(p)->0) <==> is_rooted(p)),
        parent(p) is Some ==> strip_tail(parent(p)->0) == parent(p)->0,
{
    let t = strip_tail(p);
    lemma_strip_tail(p);
    text::lemma_last_index(t, '/');
    if name_start(t) != t.len() {
        let head = t.take(name_start(t));
        lemma_strip_tail(head);
        lemma_components_stripped(head);
        if is_rooted(p) {
            assert(t[0] == p[0]);
            assert(head.len() > 0);
            assert(strip_tail(head)[0] == head[0]);
        }
        if is_rooted(strip_tail(head)) {
            assert(strip_tail(head)[0] == head[0]);
            assert(head[0] == p[0]);
        }
    }
}

/// A component of a file name holds no separator and is not `.`.
pub proof fn lemma_file_name_is_plain(p: Seq<char>)
    requires
        file_name(p) is Some,
    ensures
        is_plain_name(file_name(p)->0),
{
    let t = strip_tail(p);
    text::lemma_last_index(t, '/');
    let name = file_name(p)->0;
    assert forall|i: int| 0 <= i < name.len() implies name[i] != '/' by {
        assert(name[i] == t[name_start(t) + i]);
    }
}

/// Joining puts one component behind those of the directory.
pub proof fn lemma_join(base: Seq<char>, name: Seq<char>)
    requires
        is_plain_name(name),
        strip_tail(base) == base,
    ensures
        components(join(base, name)) == components(base).push(name),
        is_rooted(join(base, name)) == is_rooted(base),
        file_name(join(base, name)) == (if name == seq!['.', '.'] {
            None
        } else {
            Some(name)
        }),
        parent(join(base, name)) == Some(base),
        strip_tail(join(base, name)) == join(base, name),
{
    let p = join(base, name);
    let cut = p.len() - name.len();
    assert(p.skip(cut) == name);
    assert(p.last() == name.last());
    assert(strip_tail(p) == p) by {
        if p.len() > 1 && p.last() == '.' && p[p.len() - 2] == '/' {
            if name.len() == 1 {
                assert(name =~= seq!['.']);
            } else {
                assert(p[p.len() - 2] == name[name.len() - 2]);
            }
        }
    }
    text::lemma_last_index(p, '/');
    assert forall|i: int| cut <= i < p.len() implies p[i] != '/' by {
        assert(p[i] == name[i - cut]);
    }
    assert(name_start(p) == cut) by {
        if base.len() > 0 {
            assert(p[cut - 1] == '/');
        }
    }
    let head = p.take(cut);
    if base.len() == 0 {
        assert(head =~= base);
        assert(strip_tail(head) == head);
    } else if base.last() == '/' {
        assert(head =~= base);
    } else {
        assert(head =~= base.push('/'));
        assert(head.drop_last() =~= base);
        assert(strip_tail(head) == strip_tail(base));
    }
    assert(strip_tail(head) == base);
    lemma_components_stripped(head);
    lemma_components_stripped(base);
    if base.len() > 0 {
        assert(p[0] == base[0]);
    } else {
        assert(p[0] == name[0]);
    }
}

/// The last `c` of `a + b` when there is none in `b`, or when `b` starts with
/// the only one.
pub proof fn lemma_last_index_of_sum(a: Seq<char>, b: Seq<char>, c: char)
    ensures
        (forall|i: int| 0 <= i < b.len() ==> b[i] != c) ==> text::last_index(a + b, c)
            == text::last_index(a, c),
        b.len() > 0 && b[0] == c && (forall|i: int| 0 < i < b.len() ==> b[i] != c)
            ==> text::last_index(a + b, c) == a.len(),
{
    let s = a + b;
    text::lemma_last_index(s, c);
    text::lemma_last_index(a, c);
    let k = text::last_index(s, c);
    let j = text::last_index(a, c);
    if forall|i: int| 0 <= i < b.len() ==> b[i] != c {
        if k >= a.len() {
            assert(s[k] == b[k - a.len()]);
        } else if k >= 0 {
            assert(s[k] == a[k]);
        }
        if j >= 0 {
            assert(s[j] == a[j]);
        }
    }
    if b.len() > 0 && b[0] == c && (forall|i: int| 0 < i < b.len() ==> b[i] != c) {
        assert(s[a.len() as int] == b[0]);
        if k > a.len() {
            assert(s[k] == b[k - a.len()]);
        }
    }
}

/// Whether `ext` can stand behind the dot of a file name.
pub open spec fn is_plain_extension(ext: Seq<char>) -> bool {
    &&& ext.len() > 0
    &&& forall|i: int| 0 <= i < ext.len() ==> ext[i] != '/' && ext[i] != '.'
}

/// Appending an extension to a path appends it to the file name.
pub proof fn lemma_append_extension(p: Seq<char>, ext: Seq<char>)
    requires
        file_name(p) is Some,
        strip_tail(p) == p,
        is_plain_extension(ext),
    ensures
        file_name(p + seq!['.'] + ext) == Some(file_name(p)->0 + seq!['.'] + ext),
        extension(p + seq!['.'] + ext) == Some(ext),
        parent(p + seq!['.'] + ext) == parent(p),
        strip_tail(p + seq!['.'] + ext) == p + seq!['.'] + ext,
{
    let q = p + seq!['.'] + ext;
    let tail = seq!['.'] + ext;
    assert(q =~= p + tail);
    assert(q.last() == ext.last());
    assert(ext.last() == ext[ext.len() - 1]);
    assert(strip_tail(q) == q);
    lemma_last_index_of_sum(p, tail, '/');
    text::lemma_last_index(p, '/');
    let name = file_name(p)->0;
    assert(q.skip(name_start(q)) =~= name + seq!['.'] + ext);
    assert(q.take(name_start(q)) =~= p.take(name_start(p)));
    lemma_named_extension(name, ext);
}

/// The extension of a file name that was made by appending one.
pub proof fn lemma_named_extension(stem: Seq<char>, ext: Seq<char>)
    requires
        forall|i: int| 0 <= i < ext.len() ==> ext[i] != '.',
    ensures
        stem.len() > 0 ==> extension_dot(stem + seq!['.'] + ext) == Some(stem.len() as int),
        stem.len() == 0 ==> extension_dot(stem + seq!['.'] + ext) is None,
        (stem + seq!['.'] + ext).take(stem.len() as int) == stem,
        (stem + seq!['.'] + ext).skip(stem.len() + 1int) == ext,
{
    let name = stem + seq!['.'] + ext;
    let tail = seq!['.'] + ext;
    assert(name =~= stem + tail);
    assert forall|i: int| 0 < i < tail.len() implies tail[i] != '.' by {
        assert(tail[i] == ext[i - 1]);
    }
    lemma_last_index_of_sum(stem, tail, '.');
    assert(name.take(stem.len() as int) =~= stem);
    assert(name.skip(stem.len() + 1int) =~= ext);
}

/// Every component of a path is a plain name, but for a leading `.`.
proof fn lemma_components_are_plain(p: Seq<char>)
    ensures
        forall|i: int|
            0 <= i < components(p).len() ==> is_plain_name(#[trigger] components(p)[i]) || (i == 0
                && !is_rooted(p) && components(p)[0] == seq!['.']),
    decreases p.len(),
{
    let t = strip_tail(p);
    lemma_strip_tail(p);
    text::lemma_last_index(t, '/');
    let start = name_start(t);
    if start != t.len() {
        let head = t.take(start);
        let name = t.skip(start);
        lemma_components_are_plain(head);
        assert forall|i: int| 0 <= i < name.len() implies name[i] != '/' by {
            assert(name[i] == t[start + i]);
        }
        if is_rooted(p) {
            assert(t[0] == p[0]);
            assert(head[0] == '/');
        }
        if is_rooted(head) {
            assert(head[0] == p[0]);
        }
        if name == seq!['.'] {
            assert(t.last() == name.last());
            if start > 0 {
                // A `.` behind a separator is stripped.
                assert(t[start - 1] == '/');
                assert(strip_tail(t) == t);
            } else {
                assert(head =~= Seq::<char>::empty());
            }
        }
        if start == 0 {
            assert(head =~= Seq::<char>::empty());
            assert(strip_tail(head) == head);
            assert(components(head).len() == 0);
        }
        let all = components(p);
        assert(all == components(head).push(name));
        assert forall|i: int| 0 <= i < all.len() implies is_plain_name(#[trigger] all[i]) || (i == 0
            && !is_rooted(p) && all[0] == seq!['.']) by {
            if i < all.len() - 1 {
                assert(all[i] == components(head)[i]);
            } else if name == seq!['.'] {
                assert(t[0] == name[0]);
            }
        }
    }
}

/// Joining plain names puts them behind the components of the directory.
proof fn lemma_join_all(base: Seq<char>, names: Seq<Seq<char>>)
    requires
        strip_tail(base) == base,
        forall|i: int| 0 <= i < names.len() ==> is_plain_name(#[trigger] names[i]),
    ensures
        components(join_all(base, names)) == components(base) + names,
        is_rooted(join_all(base, names)) == is_rooted(base),
        strip_tail(join_all(base, names)) == join_all(base, names),
        base.len() > 0 ==> join_all(base, names).len() > 0,
    decreases names.len(),
{
    if names.len() > 0 {
        assert forall|i: int| 0 <= i < names.drop_last().len() implies is_plain_name(
            #[trigger] names.drop_last()[i],
        ) by {
            assert(names.drop_last()[i] == names[i]);
        }
        lemma_join_all(base, names.drop_last());
        assert(is_plain_name(names[names.len() - 1]));
        lemma_join(join_all(base, names.drop_last()), names.last());
        assert(components(base) + names =~= (components(base) + names.drop_last()).push(
            names.last(),
        ));
    } else {
        assert(components(base) + names =~= components(base));
    }
}

/// Two slashes at the start of a path write the root too.
proof fn lemma_join_all_double(names: Seq<Seq<char>>)
    requires
        names.len() > 0,
        forall|i: int| 0 <= i < names.len() ==> is_plain_name(#[trigger] names[i]),
    ensures
        join_all(seq!['/', '/'], names) == seq!['/'] + join_all(seq!['/'], names),
    decreases names.len(),
{
    if names.len() > 1 {
        assert forall|i: int| 0 <= i < names.drop_last().len() implies is_plain_name(
            #[trigger] names.drop_last()[i],
        ) by {
            assert(names.drop_last()[i] == names[i]);
        }
        lemma_join_all_double(names.drop_last());
        let body = join_all(seq!['/'], names.drop_last());
        lemma_join_all_nonempty(seq!['/'], names.drop_last());
        assert((seq!['/'] + body).last() == body.last());
        assert(join_all(seq!['/', '/'], names) =~= seq!['/'] + join_all(seq!['/'], names));
    } else {
        assert(names.drop_last() =~= Seq::<Seq<char>>::empty());
        assert(join_all(seq!['/', '/'], names.drop_last()) == seq!['/', '/']);
        assert(join_all(seq!['/'], names.drop_last()) == seq!['/']);
        assert(join_all(seq!['/', '/'], names) =~= seq!['/'] + join_all(seq!['/'], names));
    }
}

/// Joining does not make a directory empty.
proof fn lemma_join_all_nonempty(base: Seq<char>, names: Seq<Seq<char>>)
    requires
        base.len() > 0,
    ensures
        join_all(base, names).len() > 0,
    decreases names.len(),
{
    if names.len() > 0 {
        lemma_join_all_nonempty(base, names.drop_last());
    }
}

/// What lies under an absolute directory is absolute.
pub proof fn lemma_absolute_is_rooted(directory: Seq<char>, p: Seq<char>)
    requires
        is_rooted(p) || is_rooted(directory),
    ensures
        is_rooted(absolute(directory, p)),
{
    let base = if is_rooted(p) {
        root_of(p)
    } else {
        directory
    };
    lemma_join_all_is_rooted(base, names(p));
    let body = join_all(base, names(p));
    assert(join(body, Seq::empty())[0] == body[0]);
}

/// Joining keeps a directory absolute.
proof fn lemma_join_all_is_rooted(base: Seq<char>, names: Seq<Seq<char>>)
    requires
        is_rooted(base),
    ensures
        is_rooted(join_all(base, names)),
    decreases names.len(),
{
    if names.len() > 0 {
        lemma_join_all_is_rooted(base, names.drop_last());
        let body = join_all(base, names.drop_last());
        assert(join(body, names.last())[0] == body[0]);
    }
}

/// A slash more at the start of an absolute path changes nothing.
proof fn lemma_extra_slash(p: Seq<char>)
    requires
        is_rooted(p),
    ensures
        components(seq!['/'] + p) == components(p),
    decreases p.len(),
{
    let q = seq!['/'] + p;
    lemma_strip_extra_slash(p);
    let t = strip_tail(p);
    let u = strip_tail(q);
    lemma_strip_tail(p);
    lemma_strip_tail(q);
    assert(t[0] == '/');
    text::lemma_last_index(t, '/');
    if p.len() > 1 && t.len() > 1 {
        assert(u =~= seq!['/'] + t);
        lemma_last_index_of_prefixed(t);
        let head = t.take(name_start(t));
        assert(u.take(name_start(u)) =~= seq!['/'] + head);
        assert(u.skip(name_start(u)) =~= t.skip(name_start(t)));
        assert(head[0] == '/');
        if name_start(t) != t.len() {
            lemma_extra_slash(head);
        }
    } else {
        assert(t =~= seq!['/']);
        assert(u =~= seq!['/']);
    }
}

/// The last separator moves along with a separator put before it.
proof fn lemma_last_index_of_prefixed(t: Seq<char>)
    requires
        is_rooted(t),
    ensures
        text::last_index(seq!['/'] + t, '/') == text::last_index(t, '/') + 1,
{
    let u = seq!['/'] + t;
    text::lemma_last_index(t, '/');
    text::lemma_last_index(u, '/');
    let (i, j) = (text::last_index(t, '/'), text::last_index(u, '/'));
    assert(t[0] == '/');
    assert(u[i + 1] == t[i]);
    if j > i + 1 {
        assert(u[j] == t[j - 1]);
    }
}

/// A separator before an absolute path stays only before a name.
proof fn lemma_strip_extra_slash(p: Seq<char>)
    requires
        is_rooted(p),
    ensures
        strip_tail(p).len() > 1 ==> strip_tail(seq!['/'] + p) == seq!['/'] + strip_tail(p),
        strip_tail(p).len() <= 1 ==> strip_tail(seq!['/'] + p) == seq!['/'],
    decreases p.len(),
{
    let q = seq!['/'] + p;
    assert(q.last() == p.last());
    assert(q.drop_last() =~= seq!['/'] + p.drop_last());
    if p.len() > 1 && (p.last() == '/' || (p.last() == '.' && p[p.len() - 2] == '/')) {
        assert(q[q.len() - 2] == p[p.len() - 2]);
        assert(p.drop_last()[0] == '/');
        lemma_strip_extra_slash(p.drop_last());
    } else if p.len() > 1 {
        assert(q[q.len() - 2] == p[p.len() - 2]);
    } else {
        assert(q.drop_last() =~= seq!['/']);
        assert(strip_tail(seq!['/']) == seq!['/']);
        assert(strip_tail(q) == strip_tail(q.drop_last()));
    }
}

/// An absolute path starts at the root, and names what the path names from
/// the directory; an absolute one names the same place as before.
pub proof fn law_absolute_paths(directory: Seq<char>, p: Seq<char>)
    requires
        is_rooted(directory),
        strip_tail(directory) == directory,
    ensures
        is_rooted(absolute(directory, p)),
        is_rooted(p) ==> place(absolute(directory, p)) == place(p),
        !is_rooted(p) ==> place(absolute(directory, p)) == (
            true,
            components(directory) + names(p),
        ),
{
    lemma_components_are_plain(p);
    let all = names(p);
    assert forall|i: int| 0 <= i < all.len() implies is_plain_name(#[trigger] all[i]) by {
        if components(p).len() > 0 && components(p)[0] == seq!['.'] {
            assert(all[i] == components(p)[i + 1]);
        }
    }
    let base = if is_rooted(p) {
        root_of(p)
    } else {
        directory
    };
    let body = join_all(base, all);
    let root = seq!['/'];
    assert(strip_tail(root) == root);
    assert(name_start(root) == 1) by {
        text::lemma_last_index(root, '/');
        assert(root[0] == '/');
    }
    assert(components(root) =~= Seq::<Seq<char>>::empty());
    assert(strip_tail(seq!['/', '/']) == root) by {
        assert(seq!['/', '/'].drop_last() =~= root);
    }
    if is_rooted(p) {
        if components(p).len() > 0 {
            assert(is_plain_name(components(p)[0]));
        }
        assert(all == components(p));
        lemma_join_all(root, all);
        let plain = join_all(root, all);
        assert(components(root) + all =~= all);
        if base != root {
            if all.len() > 0 {
                lemma_join_all_double(all);
                lemma_extra_slash(plain);
                assert((root + plain)[0] == '/');
            } else {
                lemma_components_stripped(body);
            }
        }
        assert(components(body) == all);
        assert(is_rooted(body));
    } else {
        lemma_join_all(directory, all);
    }
    // A trailing separator names nothing.
    let slashed = join(body, Seq::empty());
    if body.last() == '/' {
        assert(slashed =~= body);
    } else {
        assert(slashed =~= body.push('/'));
        assert(slashed.drop_last() =~= body);
        lemma_components_stripped(slashed);
        lemma_components_stripped(body);
        assert(slashed[0] == body[0]);
    }
}

/// Stripping a path does not change its components.
proof fn lemma_components_stripped(p: Seq<char>)
    ensures
        components(p) == components(strip_tail(p)),
{
    lemma_strip_tail(p);
}

// ---------------------------------------------------------------------------
// Operations
// ---------------------------------------------------------------------------

/// How many characters of `v` are left without the separators and `.`
/// components at its end.
fn stripped_len(v: &Vec<char>) -> (n: usize)
    ensures
        n <= v.len(),
        v@.take(n as int) == strip_tail(v@),
{
    let mut n: usize = v.len();
    assert(v@.take(n as int) == v@);
    while n > 1 && (v[n - 1] == '/' || (v[n - 1] == '.' && v[n - 2] == '/'))
        invariant
            n <= v.len(),
            strip_tail(v@.take(n as int)) == strip_tail(v@),
        decreases n,
    {
        assert(v@.take(n as int).drop_last() == v@.take(n - 1));
        n = n - 1;
    }
    n
}

/// The last component of `p`, unless it is the root, `.` or `..`.
pub fn name_of(p: &str) -> (r: Option<String>)
    ensures
        text::opt_text(r) == file_name(p@),
{
    let v = text::chars_of(p);
    let n = stripped_len(&v);
    let start = text::find_last(&v, n, '/');
    let ghost t = strip_tail(p@);
    proof {
        lemma_strip_tail(p@);
        assert(t.len() == n);
        assert(t.skip(name_start(t)) =~= p@.subrange(start as int, n as int));
    }
    let len = n - start;
    if len == 0 {
        return None;
    }
    let ghost name = t.skip(name_start(t));
    if len == 1 && v[start] == '.' {
        assert(name =~= seq!['.']);
        return None;
    }
    if len == 2 && v[start] == '.' && v[start + 1] == '.' {
        assert(name =~= seq!['.', '.']);
        return None;
    }
    assert(name != seq!['.']) by {
        if name == seq!['.'] {
            assert(name[0] == '.');
        }
    }
    assert(name != seq!['.', '.']) by {
        if name == seq!['.', '.'] {
            assert(name[0] == '.' && name[1] == '.');
        }
    }
    Some(p.substring_char(start, n).to_owned())
}

/// `p` without its last component; nothing for an empty path and the root.
pub fn parent_of(p: &str) -> (r: Option<String>)
    ensures
        text::opt_text(r) == parent(p@),
{
    let v = text::chars_of(p);
    let n = stripped_len(&v);
    let start = text::find_last(&v, n, '/');
    let ghost t = strip_tail(p@);
    proof {
        lemma_strip_tail(p@);
        assert(t.len() == n);
    }
    if start == n {
        return None;
    }
    let head = p.substring_char(0, start).to_owned();
    assert(head@ =~= t.take(name_start(t)));
    let w = text::chars_of(head.as_str());
    let k = stripped_len(&w);
    let r = head.as_str().substring_char(0, k).to_owned();
    assert(r@ =~= w@.take(k as int));
    Some(r)
}

/// One past the index of the extension's dot in a file name, or 0.
fn dot_after(name: &str) -> (r: usize)
    ensures
        r <= name@.len(),
        extension_dot(name@) == (if r > 1 {
            Some(r - 1)
        } else {
            None
        }),
{
    let v = text::chars_of(name);
    assert(v@.take(v@.len() as int) == v@);
    text::find_last(&v, v.len(), '.')
}

/// The part of the file name behind its last dot.
pub fn extension_of(p: &str) -> (r: Option<String>)
    ensures
        text::opt_text(r) == extension(p@),
{
    match name_of(p) {
        Some(name) => {
            let k = dot_after(name.as_str());
            if k > 1 {
                let len = name.as_str().unicode_len();
                let ext = name.as_str().substring_char(k, len).to_owned();
                assert(ext@ =~= name@.skip(k as int));
                Some(ext)
            } else {
                None
            }
        },
        None => None,
    }
}

/// The file name without its extension.
pub fn stem_of(p: &str) -> (r: Option<String>)
    ensures
        text::opt_text(r) == file_stem(p@),
{
    match name_of(p) {
        Some(name) => {
            let k = dot_after(name.as_str());
            if k > 1 {
                let stem = name.as_str().substring_char(0, k - 1).to_owned();
                assert(stem@ =~= name@.take(k - 1));
                Some(stem)
            } else {
                Some(name)
            }
        },
        None => None,
    }
}

/// The components of `p`, from the outermost to the last.
pub fn components_of(p: &str) -> (r: Vec<String>)
    ensures
        text::texts(r@) == components(p@),
    decreases p@.len(),
{
    let v = text::chars_of(p);
    let n = stripped_len(&v);
    let start = text::find_last(&v, n, '/');
    let ghost t = strip_tail(p@);
    proof {
        lemma_strip_tail(p@);
        assert(t.len() == n);
    }
    if start == n {
        let r: Vec<String> = Vec::new();
        assert(text::texts(r@) =~= components(p@));
        return r;
    }
    let head = p.substring_char(0, start);
    assert(head@ =~= t.take(name_start(t)));
    let name = p.substring_char(start, n).to_owned();
    assert(name@ =~= t.skip(name_start(t)));
    let mut r = components_of(head);
    r.push(name);
    assert(text::texts(r@) =~= components(p@));
    r
}

/// Whether two paths name the same place.
pub fn same_place(a: &str, b: &str) -> (r: bool)
    ensures
        r == same_path(a@, b@),
{
    let va = text::chars_of(a);
    let vb = text::chars_of(b);
    if (va.len() > 0 && va[0] == '/') != (vb.len() > 0 && vb[0] == '/') {
        return false;
    }
    let ca = components_of(a);
    let cb = components_of(b);
    assert(components(a@).len() == ca@.len());
    assert(components(b@).len() == cb@.len());
    if ca.len() != cb.len() {
        return false;
    }
    for i in 0..ca.len()
        invariant
            text::texts(ca@) == components(a@),
            text::texts(cb@) == components(b@),
            ca.len() == cb.len(),
            forall|j: int| 0 <= j < i ==> #[trigger] components(a@)[j] == components(b@)[j],
    {
        assert(components(a@)[i as int] == ca@[i as int]@);
        assert(components(b@)[i as int] == cb@[i as int]@);
        if !text::str_eq(ca[i].as_str(), cb[i].as_str()) {
            return false;
        }
    }
    assert(components(a@) =~= components(b@));
    true
}

/// `name` under the directory `base`.
pub fn joined(base: &str, name: &str) -> (r: String)
    ensures
        r@ == join(base@, name@),
{
    let v = text::chars_of(base);
    let mut out = base.to_owned();
    if v.len() > 0 && v[v.len() - 1] != '/' {
        proof {
            reveal_strlit("/");
        }
        out.append("/");
        assert(out@ =~= base@.push('/'));
    }
    out.append(name);
    assert(out@ =~= join(base@, name@));
    out
}

/// `p` as an absolute path, when it is taken to start from `directory`.
pub fn absolute_of(directory: &str, p: &str) -> (r: String)
    ensures
        r@ == absolute(directory@, p@),
{
    proof {
        reveal_strlit("/");
        reveal_strlit("//");
    }
    let v = text::chars_of(p);
    let rooted = v.len() > 0 && v[0] == '/';
    let mut out = if !rooted {
        directory.to_owned()
    } else if v.len() > 1 && v[1] == '/' && !(v.len() > 2 && v[2] == '/') {
        "//".to_owned()
    } else {
        "/".to_owned()
    };
    let ghost base = if is_rooted(p@) {
        root_of(p@)
    } else {
        directory@
    };
    assert(out@ =~= base);
    let all = components_of(p);
    let ghost parts = text::texts(all@);
    let mut first: usize = 0;
    if all.len() > 0 && text::str_eq(all[0].as_str(), ".") {
        first = 1;
    }
    proof {
        reveal_strlit(".");
        assert("."@ =~= seq!['.']);
        if all.len() > 0 {
            assert(parts[0] == all@[0]@);
        }
        assert(names(p@) =~= parts.skip(first as int));
        assert(parts.skip(first as int).take(0) =~= Seq::<Seq<char>>::empty());
    }
    for i in first..all.len()
        invariant
            first <= all.len(),
            parts == text::texts(all@),
            out@ == join_all(base, parts.skip(first as int).take(i - first)),
    {
        let ghost seen = parts.skip(first as int).take(i + 1 - first);
        assert(seen.drop_last() =~= parts.skip(first as int).take(i - first));
        assert(seen.last() == all@[i as int]@);
        out = joined(out.as_str(), all[i].as_str());
    }
    assert(parts.skip(first as int).take(all.len() - first) =~= parts.skip(first as int));
    if v.len() > 0 && v[v.len() - 1] == '/' {
        out = joined(out.as_str(), "");
        proof {
            reveal_strlit("");
            assert(""@ =~= Seq::<char>::empty());
        }
    }
    out
}

} // verus!
