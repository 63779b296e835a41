//! The mirror registry: named download sources, at most one of them the
//! default.
use vstd::prelude::*;
use vstd::string::{StrSliceExecFns, StringExecFns};
use crate::models::{Mirror, MirrorView};
use crate::text::{has_suffix, str_eq, str_has_suffix};

verus! {

pub open spec fn mirrors_view(v: Seq<Mirror>) -> Seq<MirrorView> {
    v.map_values(|m: Mirror| m@)
}

/// The first mirror of `s`, from position `i` on, that satisfies `p`.
pub open spec fn first_from(s: Seq<MirrorView>, i: int, p: spec_fn(MirrorView) -> bool) -> Option<MirrorView>
    decreases s.len() - i,
{
    if i < 0 || i >= s.len() {
        None
    } else if p(s[i]) {
        Some(s[i])
    } else {
        first_from(s, i + 1, p)
    }
}

pub open spec fn usable_default(m: MirrorView) -> bool {
    m.is_default && m.is_active
}

/// The first mirror that is both default and active.
pub open spec fn default_of(s: Seq<MirrorView>) -> Option<MirrorView> {
    first_from(s, 0, |m: MirrorView| usable_default(m))
}

/// The first mirror called `name`.
pub open spec fn named(s: Seq<MirrorView>, name: Seq<char>) -> Option<MirrorView> {
    first_from(s, 0, |m: MirrorView| m.name == name)
}

/// No two mirrors are default.
pub open spec fn at_most_one_default(s: Seq<MirrorView>) -> bool {
    forall|i: int, j: int| 0 <= i < s.len() && 0 <= j < s.len() && s[i].is_default && s[j].is_default ==> i == j
}

/// Exactly one mirror is default.
pub open spec fn exactly_one_default(s: Seq<MirrorView>) -> bool {
    at_most_one_default(s) && exists|i: int| 0 <= i < s.len() && #[trigger] s[i].is_default
}

pub open spec fn cleared_defaults(s: Seq<MirrorView>) -> Seq<MirrorView> {
    s.map_values(|m: MirrorView| MirrorView { is_default: false, ..m })
}

/// A fresh, active, never tested mirror.
pub open spec fn new_mirror(name: Seq<char>, url: Seq<char>, is_default: bool) -> MirrorView {
    MirrorView { name, url, is_default, last_tested: None, is_active: true }
}

/// The registry after adding a mirror.
pub open spec fn added(s: Seq<MirrorView>, name: Seq<char>, url: Seq<char>, set_default: bool) -> Seq<MirrorView> {
    if set_default {
        cleared_defaults(s).push(new_mirror(name, url, true))
    } else {
        s.push(new_mirror(name, url, false))
    }
}

/// The registry after removing every mirror called `name`.
pub open spec fn removed(s: Seq<MirrorView>, name: Seq<char>) -> Seq<MirrorView> {
    s.filter(|m: MirrorView| m.name != name)
}

/// The mirror that stands in when no configuration can be read: the
/// canonical index, active and default.
pub open spec fn builtin_view() -> MirrorView {
    new_mirror(
        seq!['p', 'y', 'p', 'i'],
        seq!['h', 't', 't', 'p', 's', ':', '/', '/', 'p', 'y', 'p', 'i', '.', 'o', 'r', 'g', '/', 's', 'i', 'm', 'p', 'l', 'e', '/'],
        true,
    )
}

/// The address probed to test a mirror.
pub open spec fn probe_url_of(m: MirrorView) -> Seq<char> {
    m.url + seq!['/', 'p', 'i', 'p', '/']
}

/// The root of a mirror's address: the address without a trailing
/// `/simple/` or `/simple` index path.
pub open spec fn mirror_root(url: Seq<char>) -> Seq<char> {
    if has_suffix(url, "/simple/"@) {
        url.subrange(0, url.len() - 8)
    } else if has_suffix(url, "/simple"@) {
        url.subrange(0, url.len() - 7)
    } else {
        url
    }
}

/// Where a mirror serves the JSON metadata of `package`.
pub open spec fn metadata_url_of(url: Seq<char>, package: Seq<char>) -> Seq<char> {
    mirror_root(url) + "/pypi/"@ + package + "/json"@
}

/// The address of the JSON metadata of `package` on mirror `m`.
pub fn metadata_url(m: &Mirror, package: &str) -> (r: String)
    ensures
        r@ == metadata_url_of(m.url@, package@),
{
    proof {
        reveal_strlit("/simple/");
        reveal_strlit("/simple");
    }
    let url = m.url.as_str();
    let n = url.unicode_len();
    let root = if str_has_suffix(url, "/simple/") {
        url.substring_char(0, n - 8)
    } else if str_has_suffix(url, "/simple") {
        url.substring_char(0, n - 7)
    } else {
        url
    };
    let mut r = String::from_str(root);
    r.append("/pypi/");
    r.append(package);
    r.append("/json");
    r
}

/// The built-in mirror.
pub fn builtin_mirror() -> (r: Mirror)
    ensures
        r@ == builtin_view(),
{
    proof {
        reveal_strlit("pypi");
        reveal_strlit("https://pypi.org/simple/");
        assert("pypi"@ =~= builtin_view().name);
        assert("https://pypi.org/simple/"@ =~= builtin_view().url);
    }
    Mirror {
        name: String::from_str("pypi"),
        url: String::from_str("https://pypi.org/simple/"),
        is_default: true,
        last_tested: None,
        is_active: true,
    }
}

/// The list of configured mirrors, kept in the file at `config_path`.
pub struct MirrorManager {
    pub config_path: String,
    pub mirrors: Vec<Mirror>,
}

impl View for MirrorManager {
    type V = Seq<MirrorView>;

    open spec fn view(&self) -> Seq<MirrorView> {
        mirrors_view(self.mirrors@)
    }
}

impl MirrorManager {
    /// A registry holding the mirrors read from `config_path`; when none
    /// could be read (`None`) or the list is empty, the built-in mirror alone.
    pub fn new(config_path: String, loaded: Option<Vec<Mirror>>) -> (r: Self)
        ensures
            r.config_path@ == config_path@,
            match loaded {
                Some(v) if v@.len() > 0 => r@ == mirrors_view(v@),
                _ => r@ == seq![builtin_view()],
            },
    {
        let mirrors = match loaded {
            Some(v) => {
                if v.len() > 0 {
                    v
                } else {
                    vec![builtin_mirror()]
                }
            },
            None => vec![builtin_mirror()],
        };
        let r = MirrorManager { config_path, mirrors };
        proof {
            if r.mirrors@.len() == 1 && r.mirrors@[0]@ == builtin_view() {
                assert(r@ =~= seq![builtin_view()]);
            }
        }
        r
    }

    /// Appends a mirror; when `set_default` holds, every other mirror first
    /// stops being the default.
    pub fn add_mirror(&mut self, name: String, url: String, set_default: bool)
        ensures
            final(self).config_path == old(self).config_path,
            final(self)@ == added(old(self)@, name@, url@, set_default),
    {
        if set_default {
            let mut i: usize = 0;
            while i < self.mirrors.len()
                invariant
                    self.config_path == old(self).config_path,
                    0 <= i <= self.mirrors@.len(),
                    self.mirrors@.len() == old(self).mirrors@.len(),
                    forall|j: int|
                        0 <= j < self.mirrors@.len() ==> #[trigger] self.mirrors@[j]@ == if j < i {
                            MirrorView { is_default: false, ..old(self).mirrors@[j]@ }
                        } else {
                            old(self).mirrors@[j]@
                        },
                decreases self.mirrors@.len() - i,
            {
                let mut m = self.mirrors[i].copy();
                m.is_default = false;
                self.mirrors.set(i, m);
                i = i + 1;
            }
            assert(self@ =~= cleared_defaults(old(self)@));
        }
        let ghost before = self@;
        self.mirrors.push(Mirror { name, url, is_default: set_default, last_tested: None, is_active: true });
        assert(self@ =~= before.push(new_mirror(name@, url@, set_default)));
    }

    /// Removes every mirror called `name`.
    pub fn remove_mirror(&mut self, name: &str)
        ensures
            final(self).config_path == old(self).config_path,
            final(self)@ == removed(old(self)@, name@),
    {
        let ghost all = self@;
        let mut kept: Vec<Mirror> = Vec::new();
        let mut i: usize = 0;
        while i < self.mirrors.len()
            invariant
                0 <= i <= self.mirrors@.len(),
                all == self@,
                mirrors_view(kept@) == removed(all.subrange(0, i as int), name@),
            decreases self.mirrors@.len() - i,
        {
            proof {
                reveal(Seq::filter);
                assert(all.subrange(0, i + 1).drop_last() =~= all.subrange(0, i as int));
                assert(all.subrange(0, i + 1).last() == all[i as int]);
            }
            if !str_eq(self.mirrors[i].name.as_str(), name) {
                kept.push(self.mirrors[i].copy());
                proof {
                    assert(mirrors_view(kept@) =~= removed(all.subrange(0, i as int), name@).push(all[i as int]));
                }
            }
            i = i + 1;
        }
        assert(all.subrange(0, all.len() as int) =~= all);
        self.mirrors = kept;
    }

    /// The first mirror that is both default and active.
    pub fn get_default_mirror(&self) -> (r: Option<&Mirror>)
        ensures
            match r {
                Some(m) => default_of(self@) == Some(m@),
                None => default_of(self@) is None,
            },
    {
        let ghost p = |m: MirrorView| usable_default(m);
        let mut i: usize = 0;
        while i < self.mirrors.len()
            invariant
                0 <= i <= self.mirrors@.len(),
                p == (|m: MirrorView| usable_default(m)),
                default_of(self@) == first_from(self@, i as int, p),
            decreases self.mirrors@.len() - i,
        {
            if self.mirrors[i].is_default && self.mirrors[i].is_active {
                return Some(&self.mirrors[i]);
            }
            i = i + 1;
        }
        None
    }

    /// The first mirror called `name`.
    pub fn find_mirror(&self, name: &str) -> (r: Option<&Mirror>)
        ensures
            match r {
                Some(m) => named(self@, name@) == Some(m@),
                None => named(self@, name@) is None,
            },
    {
        let ghost p = |m: MirrorView| m.name == name@;
        let mut i: usize = 0;
        while i < self.mirrors.len()
            invariant
                0 <= i <= self.mirrors@.len(),
                p == (|m: MirrorView| m.name == name@),
                named(self@, name@) == first_from(self@, i as int, p),
            decreases self.mirrors@.len() - i,
        {
            if str_eq(self.mirrors[i].name.as_str(), name) {
                return Some(&self.mirrors[i]);
            }
            i = i + 1;
        }
        None
    }

    /// The address to probe when testing the mirror called `name`; `None`
    /// when no mirror has that name.
    pub fn probe_url(&self, name: &str) -> (r: Option<String>)
        ensures
            match r {
                Some(u) => named(self@, name@) is Some && u@ == probe_url_of(named(self@, name@)->0),
                None => named(self@, name@) is None,
            },
    {
        match self.find_mirror(name) {
            Some(m) => {
                let mut u = m.url.clone();
                u.append("/pip/");
                proof {
                    reveal_strlit("/pip/");
                    assert(u@ =~= probe_url_of(m@));
                }
                Some(u)
            },
            None => None,
        }
    }
}

/// Adding a mirror as the default leaves exactly one default mirror, the
/// new one, whatever the registry held before; so do two such additions in
/// a row, in either order.
pub proof fn lemma_add_default_leaves_one(
    s: Seq<MirrorView>,
    n1: Seq<char>,
    u1: Seq<char>,
    n2: Seq<char>,
    u2: Seq<char>,
)
    ensures
        exactly_one_default(added(s, n1, u1, true)),
        added(s, n1, u1, true).last().is_default,
        exactly_one_default(added(added(s, n1, u1, true), n2, u2, true)),
        exactly_one_default(added(added(s, n2, u2, true), n1, u1, true)),
{
    lemma_add_default_one(s, n1, u1);
    lemma_add_default_one(s, n2, u2);
    lemma_add_default_one(added(s, n1, u1, true), n2, u2);
    lemma_add_default_one(added(s, n2, u2, true), n1, u1);
}

proof fn lemma_add_default_one(s: Seq<MirrorView>, n: Seq<char>, u: Seq<char>)
    ensures
        exactly_one_default(added(s, n, u, true)),
        added(s, n, u, true).last().is_default,
{
    let t = added(s, n, u, true);
    assert(t[t.len() - 1].is_default);
    assert forall|i: int, j: int| 0 <= i < t.len() && 0 <= j < t.len() && t[i].is_default && t[j].is_default implies i == j by {
        assert(i == t.len() - 1);
        assert(j == t.len() - 1);
    }
}

/// Adding a non-default mirror, or removing mirrors, keeps the registry to
/// at most one default.
pub proof fn lemma_at_most_one_default_kept(s: Seq<MirrorView>, n: Seq<char>, u: Seq<char>)
    requires
        at_most_one_default(s),
    ensures
        at_most_one_default(added(s, n, u, false)),
        at_most_one_default(removed(s, n)),
{
    let t = added(s, n, u, false);
    assert forall|i: int, j: int| 0 <= i < t.len() && 0 <= j < t.len() && t[i].is_default && t[j].is_default implies i == j by {
        assert(i < s.len() && j < s.len());
        assert(t[i] == s[i] && t[j] == s[j]);
    }
    lemma_filter_at_most_one(s, |m: MirrorView| m.name != n);
}

proof fn lemma_filter_at_most_one(s: Seq<MirrorView>, p: spec_fn(MirrorView) -> bool)
    requires
        at_most_one_default(s),
    ensures
        at_most_one_default(s.filter(p)),
    decreases s.len(),
{
    reveal(Seq::filter);
    if s.len() > 0 {
        let d = s.drop_last();
        assert(at_most_one_default(d)) by {
            assert forall|i: int, j: int| 0 <= i < d.len() && 0 <= j < d.len() && d[i].is_default && d[j].is_default implies i == j by {
                assert(d[i] == s[i] && d[j] == s[j]);
            }
        }
        lemma_filter_at_most_one(d, p);
        let f = d.filter(p);
        if p(s.last()) {
            if s.last().is_default {
                assert forall|k: int| 0 <= k < d.len() implies !(#[trigger] d[k]).is_default by {
                    assert(d[k] == s[k]);
                }
                lemma_filter_no_default(d, p);
            }
            let t = f.push(s.last());
            assert forall|i: int, j: int| 0 <= i < t.len() && 0 <= j < t.len() && t[i].is_default && t[j].is_default implies i == j by {
                if i < f.len() {
                    assert(t[i] == f[i]);
                }
                if j < f.len() {
                    assert(t[j] == f[j]);
                }
            }
        }
    }
}

proof fn lemma_filter_no_default(s: Seq<MirrorView>, p: spec_fn(MirrorView) -> bool)
    requires
        forall|k: int| 0 <= k < s.len() ==> !(#[trigger] s[k]).is_default,
    ensures
        forall|k: int| 0 <= k < s.filter(p).len() ==> !(#[trigger] s.filter(p)[k]).is_default,
    decreases s.len(),
{
    reveal(Seq::filter);
    if s.len() > 0 {
        let d = s.drop_last();
        assert forall|k: int| 0 <= k < d.len() implies !(#[trigger] d[k]).is_default by {
            assert(d[k] == s[k]);
        }
        lemma_filter_no_default(d, p);
        let f = d.filter(p);
        if p(s.last()) {
            let t = f.push(s.last());
            assert forall|k: int| 0 <= k < t.len() implies !(#[trigger] t[k]).is_default by {
                if k < f.len() {
                    assert(t[k] == f[k]);
                }
            }
        }
    }
}

} // verus!
