use vstd::prelude::*;

verus! {

/// Nested flag group of the persisted document.
#[derive(Clone)]
pub struct ShellConfig {
    pub enabled: bool,
}

/// The persisted local configuration document.
///
/// `allowed_folders` holds canonical absolute paths, kept sorted and
/// duplicate-free (strictly increasing in `chars_lt` order).
#[derive(Clone)]
pub struct LocalConfig {
    pub allowed_folders: Vec<String>,
    pub shell: ShellConfig,
    pub history_enabled: bool,
}

/// Strict lexicographic order on character sequences, by code point.
pub open spec fn chars_lt(a: Seq<char>, b: Seq<char>) -> bool
    decreases a.len(),
{
    if b.len() == 0 {
        false
    } else if a.len() == 0 {
        true
    } else if a[0] != b[0] {
        (a[0] as u32) < (b[0] as u32)
    } else {
        chars_lt(a.drop_first(), b.drop_first())
    }
}

/// The folder list invariant: strictly increasing, hence duplicate-free.
pub open spec fn folders_sorted(fs: Seq<Seq<char>>) -> bool {
    forall|i: int, j: int| 0 <= i < j < fs.len() ==> chars_lt(fs[i], fs[j])
}

pub proof fn lemma_chars_lt_irrefl(a: Seq<char>)
    ensures
        !chars_lt(a, a),
    decreases a.len(),
{
    if a.len() > 0 {
        lemma_chars_lt_irrefl(a.drop_first());
    }
}

pub proof fn lemma_chars_lt_trans(a: Seq<char>, b: Seq<char>, c: Seq<char>)
    requires
        chars_lt(a, b),
        chars_lt(b, c),
    ensures
        chars_lt(a, c),
    decreases a.len(),
{
    if c.len() == 0 || a.len() == 0 {
    } else if b.len() == 0 {
    } else {
        if a[0] == b[0] && b[0] == c[0] {
            lemma_chars_lt_trans(a.drop_first(), b.drop_first(), c.drop_first());
        }
    }
}

pub proof fn lemma_chars_lt_connected(a: Seq<char>, b: Seq<char>)
    requires
        a != b,
    ensures
        chars_lt(a, b) || chars_lt(b, a),
    decreases a.len(),
{
    if a.len() == 0 {
        if b.len() == 0 {
            assert(a =~= b);
        }
    } else if b.len() == 0 {
    } else if a[0] == b[0] {
        assert(a.drop_first() != b.drop_first()) by {
            if a.drop_first() == b.drop_first() {
                assert(a =~= seq![a[0]] + a.drop_first());
                assert(b =~= seq![b[0]] + b.drop_first());
            }
        }
        lemma_chars_lt_connected(a.drop_first(), b.drop_first());
    } else {
        assert((a[0] as u32) != (b[0] as u32)) by {
            vstd::utf8::char_u32_cast(a[0], a[0] as u32);
            vstd::utf8::char_u32_cast(b[0], b[0] as u32);
        }
    }
}

/// A sorted folder list has no two equal entries.
pub proof fn lemma_sorted_folders_unique(fs: Seq<Seq<char>>)
    requires
        folders_sorted(fs),
    ensures
        forall|i: int, j: int| 0 <= i < fs.len() && 0 <= j < fs.len() && i != j ==> fs[i] != fs[j],
{
    assert forall|i: int, j: int|
        0 <= i < fs.len() && 0 <= j < fs.len() && i != j implies fs[i] != fs[j] by {
        if i < j {
            assert(chars_lt(fs[i], fs[j]));
            if fs[i] == fs[j] {
                lemma_chars_lt_irrefl(fs[i]);
            }
        } else {
            assert(chars_lt(fs[j], fs[i]));
            if fs[i] == fs[j] {
                lemma_chars_lt_irrefl(fs[i]);
            }
        }
    }
}

/// Where a new canonical path lands in the sorted folder list: entries
/// strictly below it keep their place, an equal entry makes the insert
/// a no-op, and everything greater shifts right.
pub open spec fn folders_insert(fs: Seq<Seq<char>>, x: Seq<char>) -> Seq<Seq<char>>
    decreases fs.len(),
{
    if fs.len() == 0 {
        seq![x]
    } else if chars_lt(fs[0], x) {
        seq![fs[0]] + folders_insert(fs.drop_first(), x)
    } else if fs[0] == x {
        fs
    } else {
        seq![x] + fs
    }
}

/// Removal keeps exactly the entries different from the key, in order.
pub open spec fn folders_remove(fs: Seq<Seq<char>>, x: Seq<char>) -> Seq<Seq<char>>
    decreases fs.len(),
{
    if fs.len() == 0 {
        fs
    } else if fs[0] == x {
        folders_remove(fs.drop_first(), x)
    } else {
        seq![fs[0]] + folders_remove(fs.drop_first(), x)
    }
}

/// Appending one entry commutes with removal.
proof fn lemma_remove_snoc(s: Seq<Seq<char>>, e: Seq<char>, x: Seq<char>)
    ensures
        folders_remove(s.push(e), x) == if e == x {
            folders_remove(s, x)
        } else {
            folders_remove(s, x) + seq![e]
        },
    decreases s.len(),
{
    if s.len() == 0 {
        if e == x {
            assert(folders_remove(s.push(e), x) =~= folders_remove(s.push(e).drop_first(), x));
            assert(s.push(e).drop_first() =~= s);
        } else {
            let t = s.push(e).drop_first();
            assert(t =~= Seq::<Seq<char>>::empty());
            assert(folders_remove(t, x) =~= Seq::<Seq<char>>::empty());
            assert(folders_remove(s.push(e), x) =~= seq![e]);
            assert(folders_remove(s, x) + seq![e] =~= seq![e]);
        }
    } else {
        assert(s.push(e).drop_first() =~= s.drop_first().push(e));
        lemma_remove_snoc(s.drop_first(), e, x);
        if s[0] == x {
        } else {
            if e == x {
            } else {
                assert(seq![s[0]] + (folders_remove(s.drop_first(), x) + seq![e]) =~= (seq![s[0]]
                    + folders_remove(s.drop_first(), x)) + seq![e]);
            }
        }
    }
}

/// The removed key is gone from the result.
pub proof fn lemma_remove_not_contains(fs: Seq<Seq<char>>, x: Seq<char>)
    ensures
        !folders_remove(fs, x).contains(x),
    decreases fs.len(),
{
    if fs.len() == 0 {
    } else {
        lemma_remove_not_contains(fs.drop_first(), x);
        if fs[0] != x {
            let r = seq![fs[0]] + folders_remove(fs.drop_first(), x);
            assert forall|i: int| 0 <= i < r.len() implies r[i] != x by {
                if i > 0 {
                    assert(r[i] == folders_remove(fs.drop_first(), x)[i - 1]);
                    if r[i] == x {
                        assert(folders_remove(fs.drop_first(), x).contains(x));
                    }
                }
            }
            if r.contains(x) {
                let w = choose|w: int| 0 <= w < r.len() && r[w] == x;
            }
        }
    }
}

/// Removal keeps every entry other than the key.
pub proof fn lemma_remove_keeps_others(fs: Seq<Seq<char>>, x: Seq<char>, e: Seq<char>)
    requires
        e != x,
    ensures
        folders_remove(fs, x).contains(e) <==> fs.contains(e),
    decreases fs.len(),
{
    if fs.len() == 0 {
    } else {
        lemma_remove_keeps_others(fs.drop_first(), x, e);
        let tail = fs.drop_first();
        let rt = folders_remove(tail, x);
        assert(forall|i: int| 0 <= i < tail.len() ==> tail[i] == fs[i + 1]);
        if fs[0] == x {
            if fs.contains(e) {
                let w = choose|w: int| 0 <= w < fs.len() && fs[w] == e;
                assert(tail[w - 1] == e);
                assert(tail.contains(e));
            }
            if tail.contains(e) {
                let w = choose|w: int| 0 <= w < tail.len() && tail[w] == e;
                assert(fs[w + 1] == e);
            }
        } else {
            let r = seq![fs[0]] + rt;
            if fs.contains(e) {
                let w = choose|w: int| 0 <= w < fs.len() && fs[w] == e;
                if w == 0 {
                    assert(r[0] == e);
                } else {
                    assert(tail[w - 1] == e);
                    assert(tail.contains(e));
                    let v = choose|v: int| 0 <= v < rt.len() && rt[v] == e;
                    assert(r[v + 1] == e);
                }
                assert(r.contains(e));
            }
            if r.contains(e) {
                let w = choose|w: int| 0 <= w < r.len() && r[w] == e;
                if w == 0 {
                    assert(fs[0] == e);
                } else {
                    assert(rt[w - 1] == e);
                    assert(rt.contains(e));
                    let v = choose|v: int| 0 <= v < tail.len() && tail[v] == e;
                    assert(fs[v + 1] == e);
                }
                assert(fs.contains(e));
            }
        }
    }
}

/// Every entry of the result was an entry of the source.
proof fn lemma_remove_subset(fs: Seq<Seq<char>>, x: Seq<char>, e: Seq<char>)
    requires
        folders_remove(fs, x).contains(e),
    ensures
        fs.contains(e),
    decreases fs.len(),
{
    if fs.len() == 0 {
    } else {
        let tail = fs.drop_first();
        assert(forall|i: int| 0 <= i < tail.len() ==> tail[i] == fs[i + 1]);
        if fs[0] == x {
            lemma_remove_subset(tail, x, e);
            let w = choose|w: int| 0 <= w < tail.len() && tail[w] == e;
            assert(fs[w + 1] == e);
        } else {
            let r = seq![fs[0]] + folders_remove(tail, x);
            let w = choose|w: int| 0 <= w < r.len() && r[w] == e;
            if w == 0 {
                assert(fs[0] == e);
            } else {
                assert(folders_remove(tail, x)[w - 1] == e);
                assert(folders_remove(tail, x).contains(e));
                lemma_remove_subset(tail, x, e);
                let v = choose|v: int| 0 <= v < tail.len() && tail[v] == e;
                assert(fs[v + 1] == e);
            }
        }
    }
}

/// Removal keeps the folder list sorted.
pub proof fn lemma_remove_keeps_sorted(fs: Seq<Seq<char>>, x: Seq<char>)
    requires
        folders_sorted(fs),
    ensures
        folders_sorted(folders_remove(fs, x)),
    decreases fs.len(),
{
    if fs.len() == 0 {
    } else {
        let tail = fs.drop_first();
        assert(forall|i: int| 0 <= i < tail.len() ==> tail[i] == fs[i + 1]);
        assert(folders_sorted(tail));
        lemma_remove_keeps_sorted(tail, x);
        let rt = folders_remove(tail, x);
        if fs[0] == x {
        } else {
            let r = seq![fs[0]] + rt;
            assert forall|i: int, j: int| 0 <= i < j < r.len() implies chars_lt(r[i], r[j]) by {
                if i == 0 {
                    assert(r[j] == rt[j - 1]);
                    assert(rt.contains(rt[j - 1]));
                    lemma_remove_subset(tail, x, rt[j - 1]);
                    let v = choose|v: int| 0 <= v < tail.len() && tail[v] == rt[j - 1];
                    assert(chars_lt(fs[0], fs[v + 1]));
                } else {
                    assert(r[i] == rt[i - 1] && r[j] == rt[j - 1]);
                    assert(chars_lt(rt[i - 1], rt[j - 1]));
                }
            }
        }
    }
}

/// Every entry of an insertion result was an entry of the source or
/// is the new path.
proof fn lemma_insert_elems(fs: Seq<Seq<char>>, x: Seq<char>, e: Seq<char>)
    requires
        folders_insert(fs, x).contains(e),
    ensures
        fs.contains(e) || e == x,
    decreases fs.len(),
{
    if fs.len() == 0 {
        assert(folders_insert(fs, x) =~= seq![x]);
    } else if chars_lt(fs[0], x) {
        let tail = fs.drop_first();
        assert(forall|k: int| 0 <= k < tail.len() ==> tail[k] == fs[k + 1]);
        let r = seq![fs[0]] + folders_insert(tail, x);
        let w = choose|w: int| 0 <= w < r.len() && r[w] == e;
        if w == 0 {
            assert(fs[0] == e);
        } else {
            assert(folders_insert(tail, x).contains(e));
            lemma_insert_elems(tail, x, e);
            if tail.contains(e) {
                let v = choose|v: int| 0 <= v < tail.len() && tail[v] == e;
                assert(fs[v + 1] == e);
            }
        }
    } else if fs[0] == x {
    } else {
        let r = seq![x] + fs;
        let w = choose|w: int| 0 <= w < r.len() && r[w] == e;
        if w > 0 {
            assert(fs[w - 1] == e);
        }
    }
}

/// The inserted path is an entry of the result.
pub proof fn lemma_insert_contains(fs: Seq<Seq<char>>, x: Seq<char>)
    ensures
        folders_insert(fs, x).contains(x),
    decreases fs.len(),
{
    if fs.len() == 0 {
        assert(folders_insert(fs, x)[0] == x);
    } else if chars_lt(fs[0], x) {
        let tail = fs.drop_first();
        lemma_insert_contains(tail, x);
        let r = seq![fs[0]] + folders_insert(tail, x);
        let w = choose|w: int| 0 <= w < folders_insert(tail, x).len() && folders_insert(tail, x)[w]
            == x;
        assert(r[w + 1] == x);
    } else if fs[0] == x {
        assert(fs[0] == x);
    } else {
        assert((seq![x] + fs)[0] == x);
    }
}

/// Insertion keeps the folder list sorted.
pub proof fn lemma_insert_sorted(fs: Seq<Seq<char>>, x: Seq<char>)
    requires
        folders_sorted(fs),
    ensures
        folders_sorted(folders_insert(fs, x)),
    decreases fs.len(),
{
    if fs.len() == 0 {
    } else if chars_lt(fs[0], x) {
        let tail = fs.drop_first();
        assert(forall|k: int| 0 <= k < tail.len() ==> tail[k] == fs[k + 1]);
        assert(folders_sorted(tail));
        lemma_insert_sorted(tail, x);
        let rt = folders_insert(tail, x);
        let r = seq![fs[0]] + rt;
        assert forall|i: int, j: int| 0 <= i < j < r.len() implies chars_lt(r[i], r[j]) by {
            if i == 0 {
                assert(rt.contains(rt[j - 1]));
                lemma_insert_elems(tail, x, rt[j - 1]);
                if tail.contains(rt[j - 1]) {
                    let v = choose|v: int| 0 <= v < tail.len() && tail[v] == rt[j - 1];
                    assert(chars_lt(fs[0], fs[v + 1]));
                } else {
                    assert(rt[j - 1] == x);
                }
            } else {
                assert(chars_lt(rt[i - 1], rt[j - 1]));
            }
        }
    } else if fs[0] == x {
    } else {
        lemma_chars_lt_connected(fs[0], x);
        let r = seq![x] + fs;
        assert forall|i: int, j: int| 0 <= i < j < r.len() implies chars_lt(r[i], r[j]) by {
            if i == 0 {
                if j == 1 {
                    assert(chars_lt(x, fs[0]));
                } else {
                    assert(chars_lt(x, fs[0]));
                    assert(chars_lt(fs[0], fs[j - 1]));
                    lemma_chars_lt_trans(x, fs[0], fs[j - 1]);
                }
            } else {
                assert(chars_lt(fs[i - 1], fs[j - 1]));
            }
        }
    }
}

/// Inserting a path that is already an entry changes nothing.
pub proof fn lemma_insert_of_contained(fs: Seq<Seq<char>>, x: Seq<char>)
    requires
        folders_sorted(fs),
        fs.contains(x),
    ensures
        folders_insert(fs, x) == fs,
    decreases fs.len(),
{
    let w = choose|w: int| 0 <= w < fs.len() && fs[w] == x;
    if chars_lt(fs[0], x) {
        let tail = fs.drop_first();
        assert(forall|k: int| 0 <= k < tail.len() ==> tail[k] == fs[k + 1]);
        if w == 0 {
            lemma_chars_lt_irrefl(x);
        }
        assert(tail[w - 1] == x);
        assert(tail.contains(x));
        assert(folders_sorted(tail));
        lemma_insert_of_contained(tail, x);
        assert(seq![fs[0]] + tail =~= fs);
    } else if fs[0] == x {
    } else {
        lemma_chars_lt_connected(fs[0], x);
        if w == 0 {
        } else {
            assert(chars_lt(fs[0], fs[w]));
            lemma_chars_lt_irrefl(x);
        }
    }
}

/// A path that is no entry grows the list by exactly one.
pub proof fn lemma_insert_len(fs: Seq<Seq<char>>, x: Seq<char>)
    requires
        !fs.contains(x),
    ensures
        folders_insert(fs, x).len() == fs.len() + 1,
    decreases fs.len(),
{
    if fs.len() == 0 {
    } else if chars_lt(fs[0], x) {
        let tail = fs.drop_first();
        assert(forall|k: int| 0 <= k < tail.len() ==> tail[k] == fs[k + 1]);
        assert(!tail.contains(x)) by {
            if tail.contains(x) {
                let v = choose|v: int| 0 <= v < tail.len() && tail[v] == x;
                assert(fs[v + 1] == x);
            }
        }
        lemma_insert_len(tail, x);
    } else if fs[0] == x {
        assert(fs.contains(x));
    } else {
    }
}

/// Adding the same canonical path twice yields one entry and changes
/// the document only the first time; a caller that reloads only on
/// change therefore reloads once.
pub proof fn lemma_add_folder_idempotent(fs: Seq<Seq<char>>, x: Seq<char>)
    requires
        folders_sorted(fs),
    ensures
        folders_insert(fs, x).contains(x),
        folders_insert(folders_insert(fs, x), x) == folders_insert(fs, x),
        !fs.contains(x) ==> folders_insert(fs, x).len() == fs.len() + 1,
        fs.contains(x) ==> folders_insert(fs, x) == fs,
{
    lemma_insert_contains(fs, x);
    lemma_insert_sorted(fs, x);
    lemma_insert_of_contained(folders_insert(fs, x), x);
    if !fs.contains(x) {
        lemma_insert_len(fs, x);
    }
    if fs.contains(x) {
        lemma_insert_of_contained(fs, x);
    }
}

impl std::default::Default for LocalConfig {
    /// The document written on first access: no folders, shell off,
    /// history on.
    fn default() -> (r: LocalConfig)
        ensures
            r.allowed_folders.deep_view() == Seq::<Seq<char>>::empty(),
            r.shell.enabled == false,
            r.history_enabled == true,
    {
        let r = LocalConfig {
            allowed_folders: Vec::new(),
            shell: ShellConfig { enabled: false },
            history_enabled: true,
        };
        proof {
            assert(r.allowed_folders.deep_view() =~= Seq::<Seq<char>>::empty());
        }
        r
    }
}

/// Strict lexicographic comparison of two paths, matching `chars_lt`.
pub fn str_lt(a: &str, b: &str) -> (r: bool)
    ensures
        r == chars_lt(a@, b@),
{
    let alen = a.unicode_len();
    let blen = b.unicode_len();
    let mut i: usize = 0;
    proof {
        assert(a@.skip(0) =~= a@);
        assert(b@.skip(0) =~= b@);
    }
    loop
        invariant
            i <= alen,
            i <= blen,
            alen == a@.len(),
            blen == b@.len(),
            chars_lt(a@, b@) == chars_lt(a@.skip(i as int), b@.skip(i as int)),
        decreases alen - i,
    {
        if i >= blen {
            assert(b@.skip(i as int).len() == 0);
            return false;
        }
        if i >= alen {
            assert(a@.skip(i as int).len() == 0);
            return true;
        }
        let ca = a.get_char(i);
        let cb = b.get_char(i);
        proof {
            assert(a@.skip(i as int)[0] == a@[i as int]);
            assert(b@.skip(i as int)[0] == b@[i as int]);
        }
        if ca != cb {
            return (ca as u32) < (cb as u32);
        }
        proof {
            assert(a@.skip(i as int).drop_first() =~= a@.skip(i + 1));
            assert(b@.skip(i as int).drop_first() =~= b@.skip(i + 1));
        }
        i = i + 1;
    }
}

impl LocalConfig {
    /// The folder list as a sequence of character sequences.
    pub open spec fn folders(&self) -> Seq<Seq<char>> {
        self.allowed_folders.deep_view()
    }

    /// Whole-document well-formedness: the folder list is strictly sorted.
    pub open spec fn wf(&self) -> bool {
        folders_sorted(self.folders())
    }

    /// Checks the folder-list invariant of a freshly parsed document.
    pub fn folders_are_sorted(&self) -> (r: bool)
        ensures
            r == self.wf(),
    {
        let n = self.allowed_folders.len();
        if n == 0 {
            return true;
        }
        let mut i: usize = 0;
        while i + 1 < n
            invariant
                n == self.allowed_folders.len(),
                i < n,
                forall|k: int|
                    0 <= k < i ==> #[trigger] chars_lt(self.folders()[k], self.folders()[k + 1]),
            decreases n - i,
        {
            if !str_lt(self.allowed_folders[i].as_str(), self.allowed_folders[i + 1].as_str()) {
                proof {
                    assert(self.folders()[i as int] == self.allowed_folders@[i as int]@);
                    assert(self.folders()[i as int + 1] == self.allowed_folders@[i as int + 1]@);
                    if self.wf() {
                        assert(chars_lt(self.folders()[i as int], self.folders()[i as int + 1]));
                    }
                }
                return false;
            }
            i = i + 1;
        }
        proof {
            assert forall|p: int, q: int| 0 <= p < q < self.folders().len() implies chars_lt(
                self.folders()[p],
                self.folders()[q],
            ) by {
                lemma_adjacent_sorted(self.folders(), p, q);
            }
        }
        true
    }

    /// Adds a canonical path to the folder list, keeping it sorted;
    /// a path already present leaves the document unchanged.  Returns
    /// whether the document changed (a caller reloads only then).
    pub fn add_folder(&mut self, path: String) -> (changed: bool)
        requires
            old(self).wf(),
        ensures
            final(self).wf(),
            changed == !old(self).folders().contains(path@),
            final(self).folders() == folders_insert(old(self).folders(), path@),
            !changed ==> final(self).folders() == old(self).folders(),
            changed ==> final(self).folders().to_set() == old(self).folders().to_set().insert(
                path@,
            ),
            final(self).shell.enabled == old(self).shell.enabled,
            final(self).history_enabled == old(self).history_enabled,
    {
        let ghost fs0 = old(self).folders();
        let n = self.allowed_folders.len();
        let mut pos: usize = 0;
        while pos < n && str_lt(self.allowed_folders[pos].as_str(), path.as_str())
            invariant
                *self == *old(self),
                fs0 == old(self).folders(),
                n == self.allowed_folders.len(),
                n == fs0.len(),
                pos <= n,
                forall|k: int| 0 <= k < pos ==> chars_lt(#[trigger] fs0[k], path@),
            decreases n - pos,
        {
            proof {
                assert(fs0[pos as int] == self.allowed_folders@[pos as int]@);
            }
            pos = pos + 1;
        }
        proof {
            assert(pos < n ==> fs0[pos as int] == self.allowed_folders@[pos as int]@);
        }
        if pos < n && self.allowed_folders[pos].eq(&path) {
            proof {
                lemma_folders_insert_at(fs0, path@, pos as int);
                assert(folders_insert(fs0, path@) == fs0);
                assert(fs0.contains(path@));
            }
            return false;
        }
        proof {
            lemma_folders_insert_at(fs0, path@, pos as int);
            assert forall|k: int| 0 <= k < fs0.len() implies fs0[k] != path@ by {
                if k < pos {
                    if fs0[k] == path@ {
                        lemma_chars_lt_irrefl(path@);
                    }
                } else if k == pos {
                } else if (pos as int) < fs0.len() {
                    if fs0[k] == path@ {
                        lemma_chars_lt_connected(fs0[pos as int], path@);
                        assert(chars_lt(path@, fs0[pos as int]));
                        assert(chars_lt(fs0[pos as int], fs0[k]));
                        lemma_chars_lt_trans(path@, fs0[pos as int], fs0[k]);
                        lemma_chars_lt_irrefl(path@);
                    }
                }
            }
            if fs0.contains(path@) {
                let w = choose|w: int| 0 <= w < fs0.len() && fs0[w] == path@;
            }
        }
        self.allowed_folders.insert(pos, path);
        proof {
            let fs1 = self.folders();
            let x = path@;
            assert(fs1 =~= fs0.take(pos as int) + seq![x] + fs0.skip(pos as int));
            assert(fs1 == folders_insert(fs0, x));
            assert forall|i: int, j: int| 0 <= i < j < fs1.len() implies chars_lt(fs1[i], fs1[j])
                by {
                lemma_insert_keeps_order(fs0, x, pos as int, i, j);
            }
            assert forall|e: Seq<char>| fs1.to_set().contains(e) implies fs0.to_set().insert(
                x,
            ).contains(e) by {
                assert(fs1.contains(e));
                let i = choose|i: int| 0 <= i < fs1.len() && fs1[i] == e;
                if i < pos {
                    assert(fs0[i] == e);
                    assert(fs0.contains(e));
                } else if i == pos {
                } else {
                    assert(fs0[i - 1] == e);
                    assert(fs0.contains(e));
                }
            }
            assert forall|e: Seq<char>| fs0.to_set().insert(x).contains(e) implies fs1
                .to_set()
                .contains(e) by {
                if e == x {
                    assert(fs1[pos as int] == x);
                    assert(fs1.contains(e));
                } else {
                    assert(fs0.contains(e));
                    let i = choose|i: int| 0 <= i < fs0.len() && fs0[i] == e;
                    if i < pos {
                        assert(fs1[i] == e);
                    } else {
                        assert(fs1[i + 1] == e);
                    }
                    assert(fs1.contains(e));
                }
            }
            assert(fs1.to_set() =~= fs0.to_set().insert(x));
        }
        true
    }

    /// Drops every entry equal to the key (at most one exists in a
    /// well-formed document); order of the rest is unchanged.
    pub fn remove_folder(&mut self, key: &String) -> (removed: bool)
        ensures
            final(self).folders() == folders_remove(old(self).folders(), key@),
            removed == old(self).folders().contains(key@),
            old(self).wf() ==> final(self).wf(),
            final(self).shell.enabled == old(self).shell.enabled,
            final(self).history_enabled == old(self).history_enabled,
    {
        let ghost fs0 = old(self).folders();
        let n = self.allowed_folders.len();
        let mut kept: Vec<String> = Vec::new();
        let mut removed = false;
        let mut i: usize = 0;
        proof {
            assert(fs0.take(0) =~= Seq::<Seq<char>>::empty());
            assert(kept.deep_view() =~= folders_remove(fs0.take(0), key@));
        }
        while i < n
            invariant
                *self == *old(self),
                fs0 == old(self).folders(),
                n == self.allowed_folders.len(),
                n == fs0.len(),
                i <= n,
                kept.deep_view() == folders_remove(fs0.take(i as int), key@),
                removed == fs0.take(i as int).contains(key@),
            decreases n - i,
        {
            let ghost prefix = fs0.take(i as int);
            let entry = self.allowed_folders[i].clone();
            let ghost e = self.allowed_folders@[i as int]@;
            let ghost kept0 = kept.deep_view();
            let same = entry.eq(key);
            if same {
                removed = true;
            } else {
                kept.push(entry);
            }
            proof {
                assert(fs0[i as int] == e);
                assert(fs0.take(i + 1) =~= prefix.push(fs0[i as int]));
                lemma_remove_snoc(prefix, fs0[i as int], key@);
                assert(entry@ == e);
                if !same {
                    assert(kept.deep_view() =~= kept0.push(e));
                    assert(kept0.push(e) =~= kept0 + seq![e]);
                }
                assert(fs0.take(i + 1).contains(key@) == (prefix.contains(key@) || fs0[i as int]
                    == key@)) by {
                    if fs0.take(i + 1).contains(key@) {
                        let w = choose|w: int|
                            0 <= w < i + 1 && #[trigger] fs0.take(i + 1)[w] == key@;
                        if w < i {
                            assert(prefix[w] == key@);
                        }
                    }
                    if prefix.contains(key@) {
                        let w = choose|w: int| 0 <= w < i && #[trigger] prefix[w] == key@;
                        assert(fs0.take(i + 1)[w] == key@);
                    }
                    if fs0[i as int] == key@ {
                        assert(fs0.take(i + 1)[i as int] == key@);
                    }
                }
            }
            i = i + 1;
        }
        proof {
            assert(fs0.take(n as int) =~= fs0);
        }
        self.allowed_folders = kept;
        proof {
            if folders_sorted(fs0) {
                lemma_remove_keeps_sorted(fs0, key@);
            }
        }
        removed
    }

    /// Sets the shell flag, touching nothing else in the document.
    pub fn set_shell(&mut self, enabled: bool)
        ensures
            final(self).folders() == old(self).folders(),
            final(self).shell.enabled == enabled,
            final(self).history_enabled == old(self).history_enabled,
            old(self).wf() ==> final(self).wf(),
    {
        self.shell.enabled = enabled;
    }
}

/// Adjacent sortedness of the folder list extends to any two positions.
proof fn lemma_adjacent_sorted(fs: Seq<Seq<char>>, p: int, q: int)
    requires
        forall|k: int| 0 <= k < fs.len() - 1 ==> #[trigger] chars_lt(fs[k], fs[k + 1]),
        0 <= p < q < fs.len(),
    ensures
        chars_lt(fs[p], fs[q]),
    decreases q - p,
{
    if q == p + 1 {
        assert(chars_lt(fs[p], fs[p + 1]));
    } else {
        lemma_adjacent_sorted(fs, p, q - 1);
        let k = q - 1;
        assert(chars_lt(fs[k], fs[k + 1]));
        lemma_chars_lt_trans(fs[p], fs[q - 1], fs[q]);
    }
}

/// Evaluates `folders_insert` once the insertion point is known.
proof fn lemma_folders_insert_at(fs: Seq<Seq<char>>, x: Seq<char>, pos: int)
    requires
        0 <= pos <= fs.len(),
        forall|k: int| 0 <= k < pos ==> chars_lt(#[trigger] fs[k], x),
        pos < fs.len() ==> !chars_lt(fs[pos], x),
    ensures
        pos < fs.len() && fs[pos] == x ==> folders_insert(fs, x) == fs,
        !(pos < fs.len() && fs[pos] == x) ==> folders_insert(fs, x) == fs.take(pos) + seq![x]
            + fs.skip(pos),
    decreases fs.len(),
{
    if fs.len() == 0 {
        assert(folders_insert(fs, x) =~= fs.take(pos) + seq![x] + fs.skip(pos));
    } else if pos == 0 {
        if fs[0] == x {
            lemma_chars_lt_irrefl(x);
        } else {
            assert(!chars_lt(fs[0], x));
            assert(folders_insert(fs, x) =~= fs.take(0) + seq![x] + fs.skip(0));
        }
    } else {
        assert(chars_lt(fs[0], x));
        let rest = fs.drop_first();
        assert(forall|k: int| 0 <= k < rest.len() ==> rest[k] == fs[k + 1]);
        assert forall|k: int| 0 <= k < pos - 1 implies chars_lt(#[trigger] rest[k], x) by {
            assert(chars_lt(fs[k + 1], x));
        }
        lemma_folders_insert_at(rest, x, pos - 1);
        if pos < fs.len() && fs[pos] == x {
            assert(rest[pos - 1] == x);
            assert(folders_insert(fs, x) =~= seq![fs[0]] + rest);
            assert(seq![fs[0]] + rest =~= fs);
        } else {
            assert(folders_insert(fs, x) =~= seq![fs[0]] + (rest.take(pos - 1) + seq![x]
                + rest.skip(pos - 1)));
            assert(seq![fs[0]] + (rest.take(pos - 1) + seq![x] + rest.skip(pos - 1)) =~= fs.take(
                pos,
            ) + seq![x] + fs.skip(pos));
        }
    }
}

/// Inserting at the right spot keeps the list strictly sorted.
proof fn lemma_insert_keeps_order(fs: Seq<Seq<char>>, x: Seq<char>, pos: int, i: int, j: int)
    requires
        folders_sorted(fs),
        0 <= pos <= fs.len(),
        forall|k: int| 0 <= k < pos ==> chars_lt(#[trigger] fs[k], x),
        pos < fs.len() ==> !chars_lt(fs[pos], x) && fs[pos] != x,
        0 <= i < j < fs.len() + 1,
    ensures
        chars_lt(
            (fs.take(pos) + seq![x] + fs.skip(pos))[i],
            (fs.take(pos) + seq![x] + fs.skip(pos))[j],
        ),
{
    let fs1 = fs.take(pos) + seq![x] + fs.skip(pos);
    assert(fs1.len() == fs.len() + 1);
    if pos < fs.len() {
        lemma_chars_lt_connected(fs[pos], x);
    }
    if i < pos && j < pos {
        assert(fs1[i] == fs[i] && fs1[j] == fs[j]);
    } else if i < pos && j == pos {
        assert(fs1[i] == fs[i] && fs1[j] == x);
    } else if i < pos && j > pos {
        assert(fs1[i] == fs[i] && fs1[j] == fs[j - 1]);
        if j - 1 == i {
        } else {
            assert(chars_lt(fs[i], fs[j - 1]));
        }
    } else if i == pos {
        assert(fs1[i] == x && fs1[j] == fs[j - 1]);
        if j - 1 == pos {
            assert(chars_lt(x, fs[pos]));
        } else {
            assert(chars_lt(x, fs[pos]));
            assert(chars_lt(fs[pos], fs[j - 1]));
            lemma_chars_lt_trans(x, fs[pos], fs[j - 1]);
        }
    } else {
        assert(fs1[i] == fs[i - 1] && fs1[j] == fs[j - 1]);
        assert(chars_lt(fs[i - 1], fs[j - 1]));
    }
}

} // verus!
