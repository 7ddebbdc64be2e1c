//! Paths as the bytes that name them.
//!
//! Two paths are the same if they have the same components: a path is absolute or not, and has
//! the names between its slashes, where an empty name and a `.` that is not at its beginning
//! do not count. This is how `std::path::Path` compares paths.

use vstd::hash_map::StringHashMap;
use vstd::prelude::*;
use vstd::utf8::*;

verus! {

/// The byte of a slash.
pub const SLASH: u8 = 47;

/// The byte of a dot.
pub const DOT: u8 = 46;

/// The components of a path.
#[verifier::ext_equal]
pub struct Components {
    pub absolute: bool,
    pub names: Seq<Seq<u8>>,
}

/// Where the last slash of `path` stands, or -1 if there is none.
pub open spec fn last_slash(path: Seq<u8>) -> int
    decreases path.len(),
{
    if path.len() == 0 {
        -1
    } else if path.last() == SLASH {
        path.len() - 1
    } else {
        last_slash(path.drop_last())
    }
}

/// The names in `path`, from its root down.
pub open spec fn names(path: Seq<u8>) -> Seq<Seq<u8>>
    decreases path.len(),
    via names_decreases
{
    let at = last_slash(path);
    let name = path.skip(at + 1);
    if at < 0 {
        if name.len() == 0 {
            seq![]
        } else {
            seq![name]
        }
    } else if name.len() == 0 || name == seq![DOT] {
        names(path.take(at))
    } else {
        names(path.take(at)).push(name)
    }
}

#[via_fn]
proof fn names_decreases(path: Seq<u8>) {
    lemma_last_slash(path);
}

/// The components of `path`.
pub open spec fn components(path: Seq<u8>) -> Components {
    Components { absolute: path.len() > 0 && path[0] == SLASH, names: names(path) }
}

/// The components of the directory that a path is in; `None` for a path without names.
pub open spec fn parent(c: Components) -> Option<Components> {
    if c.names.len() == 0 {
        None
    } else {
        Some(Components { absolute: c.absolute, names: c.names.drop_last() })
    }
}

/// The path of `name` in the directory `dir`. A name that is itself an absolute path stands for
/// that path.
pub open spec fn joined(dir: Seq<u8>, name: Seq<u8>) -> Seq<u8> {
    if name.len() > 0 && name[0] == SLASH {
        name
    } else if dir.len() == 0 || dir.last() == SLASH {
        dir + name
    } else {
        dir.push(SLASH) + name
    }
}

/// What the name of a notebook ends in.
pub open spec fn notebook_suffix() -> Seq<u8> {
    encode_utf8(".ipynb"@)
}

/// The last name of the path is more than the suffix of a notebook, and ends in it.
pub open spec fn names_notebook(path: Seq<u8>) -> bool {
    let names = names(path);
    names.len() > 0 && names.last().len() > notebook_suffix().len() && names.last().skip(
        names.last().len() - notebook_suffix().len(),
    ) == notebook_suffix()
}

proof fn lemma_last_slash(path: Seq<u8>)
    ensures
        -1 <= last_slash(path) < path.len(),
        last_slash(path) >= 0 ==> path[last_slash(path)] == SLASH,
        forall|i: int| last_slash(path) < i < path.len() ==> #[trigger] path[i] != SLASH,
    decreases path.len(),
{
    if path.len() > 0 && path.last() != SLASH {
        lemma_last_slash(path.drop_last());
        assert forall|i: int| last_slash(path) < i < path.len() implies #[trigger] path[i]
            != SLASH by {
            if i < path.len() - 1 {
                assert(path.drop_last()[i] == path[i]);
            }
        }
    }
}

/// `last_slash` is the only place with a slash and none behind it.
proof fn lemma_last_slash_at(path: Seq<u8>, at: int)
    requires
        -1 <= at < path.len(),
        at >= 0 ==> path[at] == SLASH,
        forall|i: int| at < i < path.len() ==> #[trigger] path[i] != SLASH,
    ensures
        last_slash(path) == at,
{
    lemma_last_slash(path);
}

/// No name is empty or holds a slash.
proof fn lemma_names(path: Seq<u8>)
    ensures
        forall|i: int| 0 <= i < names(path).len() ==> is_name(#[trigger] names(path)[i]),
    decreases path.len(),
{
    lemma_last_slash(path);
    let at = last_slash(path);
    let name = path.skip(at + 1);
    assert forall|i: int| 0 <= i < name.len() implies #[trigger] name[i] != SLASH by {
        assert(name[i] == path[at + 1 + i]);
    }
    if at >= 0 {
        lemma_names(path.take(at));
    }
    assert forall|i: int| 0 <= i < names(path).len() implies is_name(#[trigger] names(path)[i]) by {
        if at >= 0 && i < names(path.take(at)).len() {
            assert(names(path)[i] == names(path.take(at))[i]);
        }
    }
}

/// `name` can be a component of a path.
pub open spec fn is_name(name: Seq<u8>) -> bool {
    name.len() > 0 && forall|i: int| 0 <= i < name.len() ==> #[trigger] name[i] != SLASH
}

/// The bytes `path[from..to]`.
fn bytes_between(path: &[u8], from: usize, to: usize) -> (r: Vec<u8>)
    requires
        from <= to <= path@.len(),
    ensures
        r@ == path@.subrange(from as int, to as int),
{
    let mut r: Vec<u8> = Vec::new();
    let mut i: usize = from;
    while i < to
        invariant
            from <= i <= to <= path@.len(),
            r@ == path@.subrange(from as int, i as int),
        decreases to - i,
    {
        r.push(path[i]);
        assert(path@.subrange(from as int, i + 1) =~= path@.subrange(from as int, i as int).push(
            path@[i as int],
        ));
        i += 1;
    }
    r
}

/// The names in `path`, from its root down.
fn split_names(path: &[u8]) -> (r: Vec<Vec<u8>>)
    ensures
        r@.len() == names(path@).len(),
        forall|i: int| 0 <= i < r@.len() ==> (#[trigger] r@[i])@ == names(path@)[i],
{
    let mut r: Vec<Vec<u8>> = Vec::new();
    let mut from: usize = 0;
    let mut to: usize = 0;
    loop
        invariant
            from <= to <= path@.len(),
            from > 0 ==> path@[from - 1] == SLASH,
            forall|i: int| from <= i < to ==> #[trigger] path@[i] != SLASH,
            from == 0 ==> r@.len() == 0,
            from > 0 ==> r@.len() == names(path@.take(from - 1)).len(),
            from > 0 ==> forall|i: int|
                0 <= i < r@.len() ==> (#[trigger] r@[i])@ == names(path@.take(from - 1))[i],
        decreases path@.len() - to,
    {
        if to == path.len() || path[to] == SLASH {
            let name = bytes_between(path, from, to);
            proof {
                let upto = path@.take(to as int);
                assert forall|i: int| from - 1 < i < upto.len() implies #[trigger] upto[i]
                    != SLASH by {
                    assert(upto[i] == path@[i]);
                }
                lemma_last_slash_at(upto, from - 1);
                assert(upto.skip(from as int) =~= name@);
                if from > 0 {
                    assert(upto.take(from - 1) =~= path@.take(from - 1));
                }
                if name@.len() == 1 && name@[0] == DOT {
                    assert(name@ =~= seq![DOT]);
                }
            }
            if name.len() > 0 && (from == 0 || name.len() != 1 || name[0] != DOT) {
                r.push(name);
            }
            if to == path.len() {
                assert(path@.take(to as int) =~= path@);
                return r;
            }
            from = to + 1;
        }
        to += 1;
    }
}

/// The path of `name` in the directory `dir`.
pub fn join(dir: &[u8], name: &[u8]) -> (r: Vec<u8>)
    ensures
        r@ == joined(dir@, name@),
{
    if name.len() > 0 && name[0] == SLASH {
        let r = bytes_between(name, 0, name.len());
        assert(r@ =~= name@);
        return r;
    }
    let mut r = bytes_between(dir, 0, dir.len());
    assert(r@ =~= dir@);
    if dir.len() > 0 && dir[dir.len() - 1] != SLASH {
        r.push(SLASH);
    }
    let mut rest = bytes_between(name, 0, name.len());
    assert(rest@ =~= name@);
    r.append(&mut rest);
    r
}

/// The path names a notebook: the extension of its last component is `ipynb`.
#[verifier::loop_isolation(false)]
pub fn is_notebook(path: &[u8]) -> (r: bool)
    ensures
        r == names_notebook(path@),
{
    let all = split_names(path);
    if all.len() == 0 {
        return false;
    }
    let name = &all[all.len() - 1];
    let suffix = ".ipynb".as_bytes();
    if name.len() <= suffix.len() {
        return false;
    }
    let skipped: usize = name.len() - suffix.len();
    let ghost tail = name@.skip(skipped as int);
    let mut i: usize = 0;
    while i < suffix.len()
        invariant
            i <= suffix@.len(),
            forall|k: int| 0 <= k < i ==> tail[k] == #[trigger] suffix@[k],
        decreases suffix@.len() - i,
    {
        if name[skipped + i] != suffix[i] {
            assert(tail[i as int] != suffix@[i as int]);
            return false;
        }
        i += 1;
    }
    assert(tail =~= suffix@);
    true
}

/// The components can be those of a path.
pub open spec fn are_components(c: Components) -> bool {
    forall|i: int| 0 <= i < c.names.len() ==> is_name(#[trigger] c.names[i])
}

/// The components of a path can be those of a path.
pub proof fn lemma_components(path: Seq<u8>)
    ensures
        are_components(components(path)),
{
    lemma_names(path);
}

/// The path of a file in a directory has the components of the directory and the name of the
/// file.
pub proof fn law_join_adds_a_name(dir: Seq<u8>, name: Seq<u8>)
    requires
        is_name(name),
        name != seq![DOT],
    ensures
        components(joined(dir, name)) == (Components {
            absolute: components(dir).absolute,
            names: names(dir).push(name),
        }),
        parent(components(joined(dir, name))) == Some(components(dir)),
{
    let path = joined(dir, name);
    if dir.len() == 0 {
        assert(path =~= name);
        lemma_last_slash_at(path, -1);
        assert(path.skip(0) =~= name);
        lemma_last_slash_at(dir, -1);
        assert(names(dir) =~= seq![]);
        assert(names(path) =~= names(dir).push(name));
    } else {
        let start = if dir.last() == SLASH {
            dir
        } else {
            dir.push(SLASH)
        };
        let at = start.len() - 1;
        assert(path =~= start + name);
        assert forall|i: int| at < i < path.len() implies #[trigger] path[i] != SLASH by {
            assert(path[i] == name[i - start.len()]);
        }
        assert(path[at] == SLASH);
        lemma_last_slash_at(path, at);
        assert(path.skip(at + 1) =~= name);
        assert(path.take(at) =~= start.drop_last());
        if dir.last() == SLASH {
            law_trailing_slash(dir.drop_last());
            assert(dir.drop_last().push(SLASH) =~= dir);
        } else {
            assert(start.drop_last() =~= dir);
        }
        assert(path[0] == dir[0]);
    }
    assert(names(dir).push(name).drop_last() =~= names(dir));
}

/// A slash behind a path adds no name.
pub proof fn law_trailing_slash(path: Seq<u8>)
    ensures
        names(path.push(SLASH)) == names(path),
        path.len() > 0 ==> components(path.push(SLASH)) == components(path),
{
    let longer = path.push(SLASH);
    lemma_last_slash_at(longer, path.len() as int);
    assert(longer.skip(path.len() as int + 1) =~= seq![]);
    assert(longer.take(path.len() as int) =~= path);
}

/// Whether a file in a directory is a notebook shows in its name alone.
pub proof fn law_notebook_by_name(dir: Seq<u8>, name: Seq<u8>)
    requires
        is_name(name),
        name != seq![DOT],
    ensures
        names_notebook(joined(dir, name)) <==> name.len() > notebook_suffix().len() && name.skip(
            name.len() - notebook_suffix().len(),
        ) == notebook_suffix(),
{
    law_join_adds_a_name(dir, name);
    assert(names(dir).push(name).last() == name);
}

/// A hexadecimal digit.
spec fn digit(n: u8) -> char {
    if n < 10 {
        (48 + n) as char
    } else {
        (87 + n) as char
    }
}

/// The bytes in hexadecimal digits.
spec fn hex(bytes: Seq<u8>) -> Seq<char>
    decreases bytes.len(),
{
    if bytes.len() == 0 {
        seq![]
    } else {
        hex(bytes.drop_last()) + seq![digit(bytes.last() / 16), digit(bytes.last() % 16)]
    }
}

/// The names in hexadecimal digits, each with a slash behind it.
spec fn names_key(names: Seq<Seq<u8>>) -> Seq<char>
    decreases names.len(),
{
    if names.len() == 0 {
        seq![]
    } else {
        names_key(names.drop_last()) + hex(names.last()) + seq!['/']
    }
}

/// A text that tells components apart.
spec fn key(c: Components) -> Seq<char> {
    if c.absolute {
        seq!['/'] + names_key(c.names)
    } else {
        names_key(c.names)
    }
}

proof fn lemma_hex(a: Seq<u8>)
    ensures
        hex(a).len() == 2 * a.len(),
        forall|i: int| 0 <= i < hex(a).len() ==> #[trigger] hex(a)[i] != '/',
    decreases a.len(),
{
    if a.len() > 0 {
        lemma_hex(a.drop_last());
        assert forall|i: int| 0 <= i < hex(a).len() implies #[trigger] hex(a)[i] != '/' by {
            if i < hex(a.drop_last()).len() {
                assert(hex(a)[i] == hex(a.drop_last())[i]);
            }
        }
    }
}

proof fn lemma_hex_injective(a: Seq<u8>, b: Seq<u8>)
    requires
        hex(a) == hex(b),
    ensures
        a == b,
    decreases a.len(),
{
    lemma_hex(a);
    lemma_hex(b);
    if a.len() > 0 {
        let n = hex(a).len() as int;
        assert(hex(a)[n - 2] == digit(a.last() / 16));
        assert(hex(a)[n - 1] == digit(a.last() % 16));
        assert(hex(b)[n - 2] == digit(b.last() / 16));
        assert(hex(b)[n - 1] == digit(b.last() % 16));
        lemma_hex(a.drop_last());
        lemma_hex(b.drop_last());
        assert(hex(a.drop_last()) =~= hex(a).take(n - 2));
        assert(hex(b.drop_last()) =~= hex(b).take(n - 2));
        lemma_hex_injective(a.drop_last(), b.drop_last());
        assert(a =~= a.drop_last().push(a.last()));
        assert(b =~= b.drop_last().push(b.last()));
    } else {
        assert(a =~= b);
    }
}

proof fn lemma_names_key_injective(a: Seq<Seq<u8>>, b: Seq<Seq<u8>>)
    requires
        names_key(a) == names_key(b),
    ensures
        a == b,
    decreases a.len(),
{
    if a.len() == 0 || b.len() == 0 {
        assert(a =~= b);
    } else {
        let (p, x) = (names_key(a.drop_last()), hex(a.last()));
        let (q, y) = (names_key(b.drop_last()), hex(b.last()));
        let k = names_key(a);
        lemma_hex(a.last());
        lemma_hex(b.last());
        assert(p.len() > 0 ==> p.last() == '/');
        assert(q.len() > 0 ==> q.last() == '/');
        if p.len() < q.len() {
            assert(k[q.len() - 1] == q.last());
            assert(k[q.len() - 1] == x[q.len() - 1 - p.len()]);
        }
        if q.len() < p.len() {
            assert(k[p.len() - 1] == p.last());
            assert(k[p.len() - 1] == y[p.len() - 1 - q.len()]);
        }
        assert(p =~= k.take(p.len() as int));
        assert(q =~= k.take(p.len() as int));
        assert(x =~= k.subrange(p.len() as int, k.len() - 1));
        assert(y =~= k.subrange(p.len() as int, k.len() - 1));
        lemma_hex_injective(a.last(), b.last());
        lemma_names_key_injective(a.drop_last(), b.drop_last());
        assert(a =~= a.drop_last().push(a.last()));
        assert(b =~= b.drop_last().push(b.last()));
    }
}

/// The first character of the names' key is no slash.
proof fn lemma_names_key_first(names: Seq<Seq<u8>>)
    requires
        forall|i: int| 0 <= i < names.len() ==> is_name(#[trigger] names[i]),
    ensures
        names.len() > 0 ==> names_key(names).len() > 0 && names_key(names)[0] != '/',
    decreases names.len(),
{
    if names.len() > 0 {
        lemma_names_key_first(names.drop_last());
        lemma_hex(names.last());
        if names.len() == 1 {
            assert(names_key(names)[0] == hex(names.last())[0]);
        } else {
            assert(names_key(names)[0] == names_key(names.drop_last())[0]);
        }
    }
}

/// Distinct components have distinct keys.
proof fn lemma_key_injective(a: Components, b: Components)
    requires
        are_components(a),
        are_components(b),
        key(a) == key(b),
    ensures
        a == b,
{
    lemma_names_key_first(a.names);
    lemma_names_key_first(b.names);
    if a.absolute {
        assert(key(a)[0] == '/');
        assert(names_key(a.names) =~= key(a).skip(1));
    }
    if b.absolute {
        assert(key(b)[0] == '/');
        assert(names_key(b.names) =~= key(b).skip(1));
    }
    lemma_names_key_injective(a.names, b.names);
}

/// Adds the hexadecimal digit of `n` to `text`.
fn push_digit(text: &mut String, n: u8)
    requires
        n < 16,
    ensures
        final(text)@ == old(text)@.push(digit(n)),
{
    let digits = "0123456789abcdef";
    proof {
        reveal_strlit("0123456789abcdef");
        assert(digits.is_ascii());
        assert(digits@[n as int] == digit(n));
    }
    let one = digits.substring_ascii(n as usize, n as usize + 1);
    assert(one@ =~= seq![digit(n)]);
    text.append(one);
    assert(text@ =~= old(text)@.push(digit(n)));
}

/// Adds `name` in hexadecimal digits to `text`.
fn push_hex(text: &mut String, name: &[u8])
    ensures
        final(text)@ == old(text)@ + hex(name@),
{
    let mut i: usize = 0;
    assert(name@.take(0) =~= seq![]);
    assert(text@ =~= text@ + hex(name@.take(0)));
    while i < name.len()
        invariant
            i <= name@.len(),
            text@ == old(text)@ + hex(name@.take(i as int)),
        decreases name@.len() - i,
    {
        push_digit(text, name[i] / 16);
        push_digit(text, name[i] % 16);
        proof {
            assert(name@.take(i + 1).drop_last() =~= name@.take(i as int));
            assert(text@ =~= old(text)@ + hex(name@.take(i + 1)));
        }
        i += 1;
    }
    assert(name@.take(i as int) =~= name@);
}

/// The key of the first `count` of the names.
fn key_of(absolute: bool, names: &Vec<Vec<u8>>, count: usize, Ghost(c): Ghost<Components>) -> (r: String)
    requires
        c.absolute == absolute,
        c.names.len() == count <= names@.len(),
        forall|i: int| 0 <= i < count ==> c.names[i] == (#[trigger] names@[i])@,
    ensures
        r@ == key(c),
{
    let mut text = String::new();
    let ghost start = if absolute {
        seq!['/']
    } else {
        seq![]
    };
    proof {
        reveal_strlit("/");
        assert("/"@ =~= seq!['/']);
    }
    if absolute {
        text.append("/");
    }
    let mut i: usize = 0;
    assert(c.names.take(0) =~= seq![]);
    assert(text@ =~= start + names_key(c.names.take(0)));
    while i < count
        invariant
            i <= count,
            "/"@ == seq!['/'],
            c.names.len() == count <= names@.len(),
            forall|i: int| 0 <= i < count ==> c.names[i] == (#[trigger] names@[i])@,
            text@ == start + names_key(c.names.take(i as int)),
        decreases count - i,
    {
        push_hex(&mut text, names[i].as_slice());
        text.append("/");
        proof {
            assert(c.names.take(i + 1).drop_last() =~= c.names.take(i as int));
            assert(c.names.take(i + 1).last() == names@[i as int]@);
            assert(text@ =~= start + names_key(c.names.take(i + 1)));
        }
        i += 1;
    }
    assert(c.names.take(i as int) =~= c.names);
    assert(text@ =~= key(c));
    text
}

/// Numbers by the paths that they are given to.
pub struct PathIndex {
    by_key: StringHashMap<u64>,
}

impl View for PathIndex {
    type V = Map<Components, u64>;

    closed spec fn view(&self) -> Map<Components, u64> {
        Map::new(
            |c: Components| are_components(c) && self.by_key@.contains_key(key(c)),
            |c: Components| self.by_key@[key(c)],
        )
    }
}

impl PathIndex {
    /// An index without paths.
    pub fn new() -> (r: PathIndex)
        ensures
            r@ == Map::<Components, u64>::empty(),
    {
        let r = PathIndex { by_key: StringHashMap::new() };
        assert(r@ =~= Map::<Components, u64>::empty());
        r
    }

    /// The number of `path`.
    pub fn get(&self, path: &[u8]) -> (r: Option<u64>)
        ensures
            match r {
                Some(n) => self@.contains_key(components(path@)) && self@[components(path@)] == n,
                None => !self@.contains_key(components(path@)),
            },
    {
        let all = split_names(path);
        let absolute: bool = path.len() > 0 && path[0] == SLASH;
        proof {
            lemma_components(path@);
        }
        let k = key_of(absolute, &all, all.len(), Ghost(components(path@)));
        match self.by_key.get(k.as_str()) {
            Some(n) => Some(*n),
            None => None,
        }
    }

    /// The number of the directory that `path` is in.
    pub fn get_parent(&self, path: &[u8]) -> (r: Option<u64>)
        ensures
            match r {
                Some(n) => parent(components(path@)) matches Some(p) && self@.contains_key(p)
                    && self@[p] == n,
                None => parent(components(path@)) matches Some(p) ==> !self@.contains_key(p),
            },
    {
        let all = split_names(path);
        if all.len() == 0 {
            return None;
        }
        let absolute: bool = path.len() > 0 && path[0] == SLASH;
        proof {
            lemma_components(path@);
        }
        let k = key_of(
            absolute,
            &all,
            all.len() - 1,
            Ghost(parent(components(path@))->Some_0),
        );
        match self.by_key.get(k.as_str()) {
            Some(n) => Some(*n),
            None => None,
        }
    }

    /// Gives `n` to `path`.
    pub fn insert(&mut self, path: &[u8], n: u64)
        ensures
            final(self)@ == old(self)@.insert(components(path@), n),
    {
        let all = split_names(path);
        let absolute: bool = path.len() > 0 && path[0] == SLASH;
        let k = key_of(absolute, &all, all.len(), Ghost(components(path@)));
        self.by_key.insert(k, n);
        proof {
            let c = components(path@);
            lemma_components(path@);
            assert forall|d: Components| are_components(d) && key(d) == key(c) implies d == c by {
                lemma_key_injective(d, c);
            }
            assert(self@ =~= old(self)@.insert(c, n));
        }
    }
}

/// A path is absolute exactly if it begins with a slash, and its components have its names.
pub proof fn law_absolute(path: Seq<u8>)
    ensures
        components(path).absolute <==> path.len() > 0 && path[0] == 47,
        components(path).names == names(path),
{
}

/// The name of a path without a slash is the path itself, also if it is a dot.
pub proof fn law_single_name(name: Seq<u8>)
    requires
        forall|i: int| 0 <= i < name.len() ==> #[trigger] name[i] != 47,
    ensures
        name.len() == 0 ==> names(name) == Seq::<Seq<u8>>::empty(),
        name.len() > 0 ==> names(name) == seq![name],
{
    lemma_last_slash_at(name, -1);
    assert(name.skip(0) =~= name);
    assert(names(name) =~= if name.len() == 0 {
        seq![]
    } else {
        seq![name]
    });
}

/// What is behind a slash is a name, unless it is empty or a dot.
pub proof fn law_name_behind_a_slash(name: Seq<u8>)
    requires
        forall|i: int| 0 <= i < name.len() ==> #[trigger] name[i] != 47,
    ensures
        name.len() == 0 || name == seq![46u8] ==> names(seq![47u8] + name) == Seq::<
            Seq<u8>,
        >::empty(),
        name.len() > 0 && name != seq![46u8] ==> names(seq![47u8] + name) == seq![name],
{
    let path = seq![47u8] + name;
    assert forall|i: int| 0 < i < path.len() implies #[trigger] path[i] != 47 by {
        assert(path[i] == name[i - 1]);
    }
    lemma_last_slash_at(path, 0);
    assert(path.skip(1) =~= name);
    assert(path.take(0) =~= seq![]);
    law_single_name(path.take(0));
    assert(names(path.take(0)).push(name) =~= seq![name]);
}

/// The names of a path are those up to any of its slashes and those from there on.
pub proof fn law_names_from_slash_to_slash(first: Seq<u8>, rest: Seq<u8>)
    ensures
        names(first.push(47) + rest) == names(first) + names(seq![47u8] + rest),
    decreases rest.len(),
{
    let path = first.push(47) + rest;
    let tail = seq![47u8] + rest;
    lemma_last_slash(tail);
    let at = last_slash(tail);
    assert(tail[0] == 47);
    assert(at >= 0);
    assert forall|i: int| first.len() + at < i < path.len() implies #[trigger] path[i] != SLASH by {
        assert(path[i] == tail[i - first.len()]);
    }
    assert(path[first.len() + at] == tail[at]);
    lemma_last_slash_at(path, first.len() + at);
    assert(path.skip(first.len() + at + 1) =~= tail.skip(at + 1));
    if at == 0 {
        assert(path.take(first.len() as int) =~= first);
        assert(tail.take(0) =~= seq![]);
        law_single_name(tail.take(0));
    } else {
        let shorter = rest.take(at - 1);
        assert(path.take(first.len() + at) =~= first.push(47) + shorter);
        assert(tail.take(at) =~= seq![47u8] + shorter);
        law_names_from_slash_to_slash(first, shorter);
    }
    assert(names(path) =~= names(first) + names(tail));
}

/// The directory that a path is in has its names but for the last one; a path without names is
/// in none.
pub proof fn law_parent(c: Components, name: Seq<u8>)
    ensures
        parent(Components { absolute: c.absolute, names: c.names.push(name) }) == Some(c),
        c.names.len() == 0 ==> parent(c) is None,
{
    assert(c.names.push(name).drop_last() =~= c.names);
}

/// A name is put behind its directory, with one slash in between; an absolute one stands for
/// itself.
pub proof fn law_joined(dir: Seq<u8>, name: Seq<u8>)
    ensures
        name.len() > 0 && name[0] == 47 ==> joined(dir, name) == name,
        !(name.len() > 0 && name[0] == 47) && (dir.len() == 0 || dir.last() == 47) ==> joined(
            dir,
            name,
        ) == dir + name,
        !(name.len() > 0 && name[0] == 47) && dir.len() > 0 && dir.last() != 47 ==> joined(
            dir,
            name,
        ) == dir + seq![47u8] + name,
{
    assert(dir.push(47) + name =~= dir + seq![47u8] + name);
}

/// A path names a notebook exactly if its last name is more than `.ipynb` and ends in it.
pub proof fn law_notebook_suffix(path: Seq<u8>)
    ensures
        names(path).len() == 0 ==> !names_notebook(path),
        names(path).len() > 0 ==> ({
            let name = names(path).last();
            names_notebook(path) <==> name.len() > 6 && name.skip(name.len() - 6) == seq![
                46u8,
                105u8,
                112u8,
                121u8,
                110u8,
                98u8,
            ]
        }),
{
    lemma_suffix();
}

/// The bytes of `.ipynb`.
proof fn lemma_suffix()
    ensures
        notebook_suffix() == seq![46u8, 105u8, 112u8, 121u8, 110u8, 98u8],
{
    reveal_strlit(".ipynb");
    reveal_with_fuel(encode_utf8, 7);
    let s = ".ipynb"@;
    assert(s.drop_first().drop_first() =~= seq!['p', 'y', 'n', 'b']);
    assert forall|u: u32| u < 128 implies #[trigger] encode_scalar(u) == seq![u as u8] by {
        assert(u < 128 ==> leading_byte_width_1(u) == u as u8) by (bit_vector);
        assert(encode_scalar(u) =~= seq![u as u8]);
    }
    assert(notebook_suffix() =~= seq![46u8, 105u8, 112u8, 121u8, 110u8, 98u8]);
}

} // verus!
