//! The userinfo string: backslash-delimited key/value pairs, `\k1\v1\k2\v2`.
use crate::text::{lemma_split_seq_len, split_seq};
use vstd::prelude::*;
use vstd::string::*;

verus! {

/// One key and its value, as characters.
pub type Pair = (Seq<char>, Seq<char>);

/// The pieces of `s` between the occurrences of `sep`, in order, empty
/// pieces included.
fn split_char(s: &str, sep: char) -> (r: Vec<String>)
    ensures
        r@.map_values(|p: String| p@) == split_seq(s@, sep),
{
    let len = s.unicode_len();
    let mut done: Vec<String> = Vec::new();
    let mut start: usize = 0;
    let mut i: usize = 0;
    assert(s@.subrange(0, 0) =~= Seq::<char>::empty());
    assert(done@.map_values(|p: String| p@) =~= Seq::<Seq<char>>::empty());
    assert(seq![Seq::<char>::empty()] =~= Seq::<Seq<char>>::empty().push(Seq::<char>::empty()));
    while i < len
        invariant
            len == s@.len(),
            start <= i <= len,
            split_seq(s@.subrange(0, i as int), sep) == done@.map_values(|p: String| p@).push(
                s@.subrange(start as int, i as int),
            ),
        decreases len - i,
    {
        let c = s.get_char(i);
        let ghost prev = s@.subrange(0, i as int);
        let ghost next = s@.subrange(0, i + 1);
        let ghost dv = done@.map_values(|p: String| p@);
        let ghost cur = s@.subrange(start as int, i as int);
        assert(next.drop_last() =~= prev);
        assert(next.last() == c);
        if c == sep {
            let piece = String::from_str(s.substring_char(start, i));
            done.push(piece);
            assert(done@.map_values(|p: String| p@) =~= dv.push(cur));
            start = i + 1;
            i = i + 1;
            assert(s@.subrange(start as int, i as int) =~= Seq::<char>::empty());
        } else {
            i = i + 1;
            assert(s@.subrange(start as int, i as int) =~= cur.push(c));
            assert(split_seq(next, sep) =~= dv.push(cur.push(c)));
        }
    }
    let piece = String::from_str(s.substring_char(start, len));
    let ghost dv = done@.map_values(|p: String| p@);
    done.push(piece);
    assert(done@.map_values(|p: String| p@) =~= dv.push(s@.subrange(start as int, len as int)));
    assert(s@.subrange(0, len as int) =~= s@);
    done
}

/// `m` with key `k` set to `v`: the first entry with that key is replaced,
/// or the pair is added at the end.
pub open spec fn put(m: Seq<Pair>, k: Seq<char>, v: Seq<char>) -> Seq<Pair>
    decreases m.len(),
{
    if m.len() == 0 {
        seq![(k, v)]
    } else if m[0].0 == k {
        m.update(0, (k, v))
    } else {
        seq![m[0]] + put(m.drop_first(), k, v)
    }
}

/// The first `n` pairs of `pieces` (key, value, key, value, ...) put in order.
pub open spec fn pairs_from(pieces: Seq<Seq<char>>, n: nat) -> Seq<Pair>
    decreases n,
{
    if n == 0 {
        Seq::empty()
    } else {
        put(pairs_from(pieces, (n - 1) as nat), pieces[2 * n - 2], pieces[2 * n - 1])
    }
}

/// What a userinfo string parses to: when it begins with a backslash, the
/// pieces after it taken as keys and values; else nothing.
pub open spec fn parse_userinfo(s: Seq<char>) -> Seq<Pair> {
    let p = split_seq(s, '\\');
    if p.len() >= 2 && p[0].len() == 0 {
        pairs_from(p.drop_first(), ((p.len() - 1) / 2) as nat)
    } else {
        Seq::empty()
    }
}

/// The userinfo string of `m`: `\key\value` for each pair, in order.
pub open spec fn format_userinfo(m: Seq<Pair>) -> Seq<char>
    decreases m.len(),
{
    if m.len() == 0 {
        Seq::empty()
    } else {
        format_userinfo(m.drop_last()) + seq!['\\'] + m.last().0 + seq!['\\'] + m.last().1
    }
}

/// The keys and values of `m` in order: key, value, key, value, ...
pub open spec fn flat_pieces(m: Seq<Pair>) -> Seq<Seq<char>>
    decreases m.len(),
{
    if m.len() == 0 {
        Seq::empty()
    } else {
        flat_pieces(m.drop_last()).push(m.last().0).push(m.last().1)
    }
}

/// No two entries of `m` share a key.
pub open spec fn keys_unique(m: Seq<Pair>) -> bool {
    forall|i: int, j: int| 0 <= i < j < m.len() ==> m[i].0 != m[j].0
}

/// No key or value of `m` holds a backslash.
pub open spec fn backslash_free(m: Seq<Pair>) -> bool {
    forall|i: int| 0 <= i < m.len() ==> !(#[trigger] m[i]).0.contains('\\') && !m[i].1.contains('\\')
}

proof fn lemma_split_append(a: Seq<char>, b: Seq<char>, c: char)
    requires
        !b.contains(c),
    ensures
        split_seq(a + b, c) == split_seq(a, c).update(
            split_seq(a, c).len() - 1,
            split_seq(a, c).last() + b,
        ),
    decreases b.len(),
{
    lemma_split_seq_len(a, c);
    let r = split_seq(a, c);
    if b.len() == 0 {
        assert(a + b =~= a);
        assert(r.last() + b =~= r.last());
        assert(r.update(r.len() - 1, r.last()) =~= r);
    } else {
        let b0 = b.drop_last();
        assert(!b0.contains(c)) by {
            if b0.contains(c) {
                let k = choose|k: int| 0 <= k < b0.len() && b0[k] == c;
                assert(b[k] == c);
            }
        }
        lemma_split_append(a, b0, c);
        assert((a + b).drop_last() =~= a + b0);
        assert((a + b).last() == b.last());
        assert(b.last() != c) by {
            assert(b[b.len() - 1] == b.last());
        }
        assert((r.last() + b0).push(b.last()) =~= r.last() + b);
        let r0 = split_seq(a + b0, c);
        assert(r0 =~= r.update(r.len() - 1, r.last() + b0));
        assert(r0.update(r0.len() - 1, r0.last().push(b.last())) =~= r.update(r.len() - 1, r.last() + b));
    }
}

proof fn lemma_split_sep(a: Seq<char>, c: char)
    ensures
        split_seq(a.push(c), c) == split_seq(a, c).push(Seq::empty()),
{
    assert(a.push(c).drop_last() =~= a);
}

proof fn lemma_split_format(m: Seq<Pair>)
    requires
        backslash_free(m),
    ensures
        split_seq(format_userinfo(m), '\\') == seq![Seq::<char>::empty()] + flat_pieces(m),
    decreases m.len(),
{
    let c = '\\';
    if m.len() == 0 {
        assert(seq![Seq::<char>::empty()] + flat_pieces(m) =~= seq![Seq::<char>::empty()]);
    } else {
        let m1 = m.drop_last();
        assert(backslash_free(m1)) by {
            assert forall|i: int| 0 <= i < m1.len() implies !(#[trigger] m1[i]).0.contains('\\')
                && !m1[i].1.contains('\\') by {
                assert(m1[i] == m[i]);
            }
        }
        lemma_split_format(m1);
        let k = m.last().0;
        let v = m.last().1;
        assert(m.last() == m[m.len() - 1]);
        let f1 = format_userinfo(m1);
        lemma_split_seq_len(f1, c);
        lemma_split_sep(f1, c);
        lemma_split_append(f1.push(c), k, c);
        assert(f1 + seq![c] =~= f1.push(c));
        lemma_split_sep(f1 + seq![c] + k, c);
        assert(f1 + seq![c] + k + seq![c] =~= (f1 + seq![c] + k).push(c));
        lemma_split_append(f1 + seq![c] + k + seq![c], v, c);
        let base = seq![Seq::<char>::empty()] + flat_pieces(m1);
        assert(split_seq(f1.push(c), c) == base.push(Seq::empty()));
        assert(split_seq(f1 + seq![c] + k, c) =~= base.push(k));
        assert(split_seq(f1 + seq![c] + k + seq![c], c) =~= base.push(k).push(Seq::empty()));
        assert(split_seq(format_userinfo(m), c) =~= base.push(k).push(v));
        assert(base.push(k).push(v) =~= seq![Seq::<char>::empty()] + flat_pieces(m));
    }
}

proof fn lemma_flat_len(m: Seq<Pair>)
    ensures
        flat_pieces(m).len() == 2 * m.len(),
    decreases m.len(),
{
    if m.len() > 0 {
        lemma_flat_len(m.drop_last());
    }
}

proof fn lemma_pairs_prefix(xs: Seq<Seq<char>>, ys: Seq<Seq<char>>, n: nat)
    requires
        xs.len() >= 2 * n,
        ys.len() >= 2 * n,
        forall|i: int| 0 <= i < 2 * n ==> xs[i] == ys[i],
    ensures
        pairs_from(xs, n) == pairs_from(ys, n),
    decreases n,
{
    if n > 0 {
        lemma_pairs_prefix(xs, ys, (n - 1) as nat);
    }
}

proof fn lemma_pairs_flat(m: Seq<Pair>)
    requires
        keys_unique(m),
    ensures
        pairs_from(flat_pieces(m), m.len()) == m,
    decreases m.len(),
{
    if m.len() > 0 {
        let m1 = m.drop_last();
        let n = m.len();
        assert(keys_unique(m1)) by {
            assert forall|i: int, j: int| 0 <= i < j < m1.len() implies m1[i].0 != m1[j].0 by {
                assert(m1[i] == m[i] && m1[j] == m[j]);
            }
        }
        lemma_pairs_flat(m1);
        lemma_flat_len(m1);
        let f = flat_pieces(m);
        let f1 = flat_pieces(m1);
        assert(f == f1.push(m.last().0).push(m.last().1));
        lemma_pairs_prefix(f, f1, (n - 1) as nat);
        assert(f[2 * n - 2] == m.last().0);
        assert(f[2 * n - 1] == m.last().1);
        assert forall|j: int| 0 <= j < m1.len() implies m1[j].0 != m.last().0 by {
            assert(m1[j] == m[j]);
            assert(m.last() == m[n - 1]);
        }
        lemma_put_first_match(m1, m.last().0, m.last().1, m1.len() as int);
        assert(m1.push((m.last().0, m.last().1)) =~= m);
    }
}

/// Formatting a mapping and parsing the result gives the mapping back, for
/// keys that are unique and keys and values without a backslash.
pub proof fn lemma_userinfo_round_trip(m: Seq<Pair>)
    requires
        keys_unique(m),
        backslash_free(m),
    ensures
        parse_userinfo(format_userinfo(m)) == m,
{
    lemma_split_format(m);
    lemma_flat_len(m);
    let p = split_seq(format_userinfo(m), '\\');
    if m.len() == 0 {
        assert(p.len() == 1);
    } else {
        assert(p[0] == Seq::<char>::empty());
        assert(p.drop_first() =~= flat_pieces(m));
        assert((p.len() - 1) / 2 == m.len());
        lemma_pairs_flat(m);
    }
}

/// Key/value settings a client announces to the server, in the order they were set.
#[derive(Clone, Debug)]
pub struct UserInfo {
    keys: Vec<(String, String)>,
}

impl View for UserInfo {
    type V = Seq<Pair>;

    closed spec fn view(&self) -> Seq<Pair> {
        self.keys@.map_values(|p: (String, String)| (p.0@, p.1@))
    }
}

proof fn lemma_put_first_match(m: Seq<Pair>, k: Seq<char>, v: Seq<char>, i: int)
    requires
        0 <= i <= m.len(),
        forall|j: int| 0 <= j < i ==> m[j].0 != k,
        i < m.len() ==> m[i].0 == k,
    ensures
        put(m, k, v) == if i < m.len() { m.update(i, (k, v)) } else { m.push((k, v)) },
    decreases m.len(),
{
    if m.len() > 0 && i > 0 {
        let t = m.drop_first();
        assert forall|j: int| 0 <= j < i - 1 implies t[j].0 != k by {
            assert(t[j] == m[j + 1]);
        }
        lemma_put_first_match(t, k, v, i - 1);
        if i < m.len() {
            assert(seq![m[0]] + t.update(i - 1, (k, v)) =~= m.update(i, (k, v)));
        } else {
            assert(seq![m[0]] + t.push((k, v)) =~= m.push((k, v)));
        }
    } else if m.len() == 0 {
        assert(seq![(k, v)] =~= m.push((k, v)));
    }
}

impl UserInfo {
    /// No key is set twice.
    pub open spec fn wf(&self) -> bool {
        keys_unique(self@)
    }

    pub fn new() -> (r: UserInfo)
        ensures
            r@ == Seq::<Pair>::empty(),
            r.wf(),
    {
        let r = UserInfo { keys: Vec::new() };
        assert(r@ =~= Seq::<Pair>::empty());
        r
    }

    /// The number of keys.
    pub fn len(&self) -> (r: usize)
        ensures
            r == self@.len(),
    {
        self.keys.len()
    }

    /// Sets `key` to `value`, in place when the key is already there.
    pub fn insert(&mut self, key: String, value: String)
        ensures
            final(self)@ == put(old(self)@, key@, value@),
            old(self).wf() ==> final(self).wf(),
    {
        let ghost m = self@;
        let mut i: usize = 0;
        while i < self.keys.len()
            invariant
                i <= self.keys@.len(),
                self@ == m,
                m == old(self)@,
                forall|j: int| 0 <= j < i ==> m[j].0 != key@,
            decreases self.keys@.len() - i,
        {
            if self.keys[i].0 == key {
                proof {
                    assert(m[i as int].0 == self.keys@[i as int].0@);
                    lemma_put_first_match(m, key@, value@, i as int);
                }
                let ghost kv = key@;
                let ghost vv = value@;
                self.keys.set(i, (key, value));
                assert(self@ =~= m.update(i as int, (kv, vv)));
                assert(keys_unique(m) ==> keys_unique(self@)) by {
                    if keys_unique(m) {
                        assert forall|x: int, y: int| 0 <= x < y < self@.len() implies self@[x].0 != self@[y].0 by {
                            assert(self@[x].0 == m[x].0 && self@[y].0 == m[y].0);
                        }
                    }
                }
                return;
            }
            i = i + 1;
        }
        proof {
            lemma_put_first_match(m, key@, value@, i as int);
        }
        let ghost kv = key@;
        let ghost vv = value@;
        self.keys.push((key, value));
        assert(self@ =~= m.push((kv, vv)));
        assert(keys_unique(m) ==> keys_unique(self@)) by {
            if keys_unique(m) {
                assert forall|x: int, y: int| 0 <= x < y < self@.len() implies self@[x].0 != self@[y].0 by {
                    if y == m.len() {
                        assert(self@[x] == m[x]);
                    } else {
                        assert(self@[x] == m[x] && self@[y] == m[y]);
                    }
                }
            }
        }
    }

    /// The value of `key`, if it is set.
    pub fn get(&self, key: &str) -> (r: Option<String>)
        ensures
            r is None <==> forall|j: int| 0 <= j < self@.len() ==> self@[j].0 != key@,
            r matches Some(v) ==> exists|j: int| 0 <= j < self@.len() && self@[j].0 == key@ && self@[j].1 == v@,
    {
        let k = String::from_str(key);
        let mut i: usize = 0;
        while i < self.keys.len()
            invariant
                i <= self.keys@.len(),
                k@ == key@,
                forall|j: int| 0 <= j < i ==> self@[j].0 != key@,
            decreases self.keys@.len() - i,
        {
            if self.keys[i].0 == k {
                assert(self@[i as int].0 == key@);
                return Some(self.keys[i].1.clone());
            }
            i = i + 1;
        }
        None
    }

    /// Parses a userinfo string. One that does not begin with a backslash
    /// gives no keys; a key without a value is dropped; a key given twice
    /// keeps the later value.
    pub fn from_string(userinfo: &str) -> (r: UserInfo)
        ensures
            r@ == parse_userinfo(userinfo@),
            r.wf(),
    {
        let mut ret = UserInfo::new();
        let pieces = split_char(userinfo, '\\');
        let ghost p = pieces@.map_values(|s: String| s@);
        proof {
            lemma_split_seq_len(userinfo@, '\\');
        }
        if pieces.len() < 2 || !pieces[0].as_str().is_empty() {
            return ret;
        }
        let ghost q = p.drop_first();
        let count: usize = (pieces.len() - 1) / 2;
        let mut n: usize = 0;
        let plen: usize = pieces.len();
        assert(count + count < pieces@.len());
        while n < count
            invariant
                count == (pieces@.len() - 1) / 2,
                count + count < pieces@.len(),
                plen == pieces@.len(),
                p == pieces@.map_values(|s: String| s@),
                q == p.drop_first(),
                n <= count,
                ret@ == pairs_from(q, n as nat),
                ret.wf(),
            decreases count - n,
        {
            let ki: usize = n + n + 1;
            let key = pieces[ki].clone();
            let value = pieces[ki + 1].clone();
            assert(key@ == q[2 * (n + 1) - 2]);
            assert(value@ == q[2 * (n + 1) - 1]);
            ret.insert(key, value);
            n = n + 1;
        }
        ret
    }

    /// The userinfo string: `\key\value` for each key, in order.
    pub fn as_string(&self) -> (r: String)
        ensures
            r@ == format_userinfo(self@),
    {
        let mut out = String::new();
        let mut i: usize = 0;
        let sep = "\\";
        proof {
            reveal_strlit("\\");
        }
        while i < self.keys.len()
            invariant
                i <= self.keys@.len(),
                sep@ == seq!['\\'],
                out@ == format_userinfo(self@.subrange(0, i as int)),
            decreases self.keys@.len() - i,
        {
            out.append(sep);
            out.append(self.keys[i].0.as_str());
            out.append(sep);
            out.append(self.keys[i].1.as_str());
            i = i + 1;
            assert(self@.subrange(0, i as int).drop_last() =~= self@.subrange(0, i - 1));
        }
        assert(self@.subrange(0, i as int) =~= self@);
        out
    }
}

impl Default for UserInfo {
    fn default() -> (r: UserInfo)
        ensures
            r@ == Seq::<Pair>::empty(),
            r.wf(),
    {
        UserInfo::new()
    }
}

} // verus!
