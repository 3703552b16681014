use vstd::prelude::*;

use crate::strutil::{
    contains_char_between, find_char_from, free_of, has_double_slash, has_prefix,
    rfind_char_before, substring,
};

verus! {

/// The Git hosting platform a repository lives on.
#[derive(Clone, Copy, Debug, PartialEq, Eq, Structural)]
pub enum GitWebsite {
    GitHub,
    Gitea,
    GitLab,
}

/// Length of the URL scheme prefix of `s`: 7 for `http://`, 8 for `https://`,
/// 0 when neither is present.
pub open spec fn scheme_prefix_len(s: Seq<char>) -> int {
    if "http://"@.is_prefix_of(s) {
        7
    } else if "https://"@.is_prefix_of(s) {
        8
    } else {
        0
    }
}

/// `s` splits as `owner`, one slash, `name`, with both parts non-empty and
/// slash-free.
pub open spec fn owner_name_form(s: Seq<char>, owner: Seq<char>, name: Seq<char>) -> bool {
    owner.len() > 0 && name.len() > 0 && free_of(owner, '/') && free_of(name, '/') && s == owner
        + seq!['/'] + name
}

/// Some owner/name split of `s` exists.
pub open spec fn owner_name_matches(s: Seq<char>) -> bool {
    exists|owner: Seq<char>, name: Seq<char>| owner_name_form(s, owner, name)
}

/// Length of the optional GitHub location prefix of `s`, scheme included.
pub open spec fn github_prefix_len(s: Seq<char>) -> int {
    if "http://github.com/"@.is_prefix_of(s) {
        18
    } else if "https://github.com/"@.is_prefix_of(s) {
        19
    } else if "github.com/"@.is_prefix_of(s) {
        11
    } else {
        0
    }
}

/// A GitHub repository string yields `owner` and `name`: the string with its
/// location prefix removed splits as owner/name; when it does not, the whole
/// string must split that way instead.
pub open spec fn github_parse_ok(raw: Seq<char>, owner: Seq<char>, name: Seq<char>) -> bool {
    if owner_name_matches(raw.skip(github_prefix_len(raw))) {
        owner_name_form(raw.skip(github_prefix_len(raw)), owner, name)
    } else {
        owner_name_form(raw, owner, name)
    }
}

/// The GitHub repository shape accepts `raw`.
pub open spec fn github_matches(raw: Seq<char>) -> bool {
    owner_name_matches(raw.skip(github_prefix_len(raw))) || owner_name_matches(raw)
}

/// An owner/name split of a string is unique: the slash position is forced.
proof fn lemma_owner_name_unique(
    s: Seq<char>,
    o1: Seq<char>,
    n1: Seq<char>,
    o2: Seq<char>,
    n2: Seq<char>,
)
    requires
        owner_name_form(s, o1, n1),
        owner_name_form(s, o2, n2),
    ensures
        o1 == o2,
        n1 == n2,
{
    assert(s.len() == o1.len() + 1 + n1.len());
    assert(s.len() == o2.len() + 1 + n2.len());
    if o1.len() < o2.len() {
        assert(s[o1.len() as int] == '/');
        assert(s[o1.len() as int] == o2[o1.len() as int]);
        assert(false);
    }
    if o2.len() < o1.len() {
        assert(s[o2.len() as int] == '/');
        assert(s[o2.len() as int] == o1[o2.len() as int]);
        assert(false);
    }
    assert(o1 =~= o2) by {
        assert forall|i: int| 0 <= i < o1.len() implies o1[i] == o2[i] by {
            assert(o1[i] == s[i]);
            assert(o2[i] == s[i]);
        }
    }
    assert(n1 =~= n2) by {
        assert(n1.len() == n2.len());
        assert forall|i: int| 0 <= i < n1.len() implies n1[i] == n2[i] by {
            assert(n1[i] == s[i + o1.len() + 1]);
            assert(n2[i] == s[i + o2.len() + 1]);
        }
    }
}

/// In an owner/name split the single slash stands exactly at `o.len()`.
proof fn lemma_owner_name_slash(t: Seq<char>, o: Seq<char>, n: Seq<char>)
    requires
        owner_name_form(t, o, n),
    ensures
        t.len() == o.len() + 1 + n.len(),
        t[o.len() as int] == '/',
        forall|j: int| 0 <= j < t.len() && j != o.len() ==> t[j] != '/',
{
    assert(t.len() == o.len() + 1 + n.len());
    assert(t[o.len() as int] == '/');
    assert forall|j: int| 0 <= j < t.len() && j != o.len() implies t[j] != '/' by {
        if j < o.len() {
            assert(t[j] == o[j]);
        } else if j > o.len() {
            assert(t[j] == n[j - o.len() - 1]);
        }
    }
}

/// Splits the tail of `s` starting at `from` into owner and name when it has
/// that shape.
fn split_owner_name(s: &str, from: usize) -> (r: Option<(String, String)>)
    requires
        from <= s@.len(),
    ensures
        match r {
            Some(pair) => owner_name_form(s@.skip(from as int), pair.0@, pair.1@),
            None => !owner_name_matches(s@.skip(from as int)),
        },
{
    let ghost t = s@.skip(from as int);
    proof {
        assert forall|i: int| 0 <= i < t.len() implies t[i] == s@[i + from] by {}
    }
    let len = s.unicode_len();
    match find_char_from(s, from, '/') {
        None => {
            proof {
                if owner_name_matches(t) {
                    let (o, n) = choose|o: Seq<char>, n: Seq<char>| owner_name_form(t, o, n);
                    assert(t[o.len() as int] == '/');
                    assert(s@[o.len() + from] == '/');
                }
            }
            None
        },
        Some(i) => {
            if i == from {
                // empty owner: a split would put its first owner character here
                proof {
                    if owner_name_matches(t) {
                        let (o, n) = choose|o: Seq<char>, n: Seq<char>| owner_name_form(t, o, n);
                        lemma_owner_name_slash(t, o, n);
                        assert(t[0] == s@[i as int]);
                    }
                }
                None
            } else if i + 1 == len {
                // empty name: the slash is the last character
                proof {
                    if owner_name_matches(t) {
                        let (o, n) = choose|o: Seq<char>, n: Seq<char>| owner_name_form(t, o, n);
                        lemma_owner_name_slash(t, o, n);
                        assert(t[i - from] == s@[i as int]);
                        assert(i - from == t.len() - 1);
                        assert(t.len() - 1 != o.len());
                    }
                }
                None
            } else {
                match find_char_from(s, i + 1, '/') {
                    Some(j2) => {
                        // a second slash: no split leaves both parts slash-free
                        proof {
                            if owner_name_matches(t) {
                                let (o, n) = choose|o: Seq<char>, n: Seq<char>|
                                    owner_name_form(t, o, n);
                                lemma_owner_name_slash(t, o, n);
                                assert(t[i - from] == s@[i as int]);
                                assert(t[j2 - from] == s@[j2 as int]);
                                assert(i - from == o.len());
                                assert(j2 - from == o.len());
                            }
                        }
                        None
                    },
                    None => {
                        let owner = substring(s, from, i);
                        let name = substring(s, i + 1, len);
                        proof {
                            assert(free_of(owner@, '/')) by {
                                assert forall|k: int| 0 <= k < owner@.len() implies owner@[k]
                                    != '/' by {
                                    assert(owner@[k] == s@[from + k]);
                                }
                            }
                            assert(free_of(name@, '/')) by {
                                assert forall|k: int| 0 <= k < name@.len() implies name@[k]
                                    != '/' by {
                                    assert(name@[k] == s@[i + 1 + k]);
                                }
                            }
                            let cat = owner@ + seq!['/'] + name@;
                            assert(owner@.len() == i - from);
                            assert(cat.len() == t.len());
                            assert(t =~= cat) by {
                                assert forall|j: int| 0 <= j < t.len() implies t[j] == cat[j] by {
                                    assert(t[j] == s@[j + from]);
                                    if j < i - from {
                                        assert(cat[j] == owner@[j]);
                                        assert(owner@[j] == s@[from + j]);
                                    } else if j == i - from {
                                        assert(cat[j] == '/');
                                        assert(s@[i as int] == '/');
                                    } else {
                                        assert(cat[j] == name@[j - (i - from) - 1]);
                                        assert(name@[j - (i - from) - 1] == s@[(i + 1) + (j - (i
                                            - from) - 1)]);
                                        assert((i + 1) + (j - (i - from) - 1) == j + from);
                                    }
                                }
                            }
                            assert(t == cat);
                        }
                        Some((owner, name))
                    },
                }
            }
        },
    }
}

/// Strips the optional GitHub location prefix and splits owner and name,
/// falling back to a split of the whole string when the remainder does not
/// have the owner/name shape.
fn parse_github_owner_name(raw: &str) -> (r: Option<(String, String)>)
    ensures
        match r {
            Some(pair) => github_parse_ok(raw@, pair.0@, pair.1@),
            None => !github_matches(raw@),
        },
{
    let prefix_len: usize = if has_prefix(raw, "http://github.com/") {
        proof {
            reveal_strlit("http://github.com/");
        }
        18
    } else if has_prefix(raw, "https://github.com/") {
        proof {
            reveal_strlit("https://github.com/");
        }
        19
    } else if has_prefix(raw, "github.com/") {
        proof {
            reveal_strlit("github.com/");
        }
        11
    } else {
        0
    };
    proof {
        assert(prefix_len == github_prefix_len(raw@));
        assert(prefix_len <= raw@.len());
    }
    match split_owner_name(raw, prefix_len) {
        Some(pair) => Some(pair),
        None => {
            proof {
                assert(raw@.skip(0) =~= raw@);
            }
            if prefix_len > 0 {
                match split_owner_name(raw, 0) {
                    Some(pair) => Some(pair),
                    None => None,
                }
            } else {
                None
            }
        },
    }
}

/// A sub-path starts and ends with a slash and has no empty segment between
/// two slashes; the bare `/` is the empty sub-path.
pub open spec fn sub_path_form(p: Seq<char>) -> bool {
    p.len() >= 1 && p[0] == '/' && p[p.len() - 1] == '/' && forall|i: int|
        0 <= i < p.len() - 1 && #[trigger] p[i] == '/' ==> p[i + 1] != '/'
}

/// The origin must carry a dot that is neither its first nor its last
/// character, as a host name with at least two labels does.
pub open spec fn has_interior_dot(o: Seq<char>) -> bool {
    exists|i: int| 1 <= i <= o.len() - 2 && o[i] == '.'
}

/// A self-hosted repository string splits as origin, sub-path, owner, slash,
/// name: the origin is the slash-free host (with optional port) holding an
/// interior dot, and owner and name are the last two path segments.
pub open spec fn hosted_form(
    s: Seq<char>,
    origin: Seq<char>,
    sub_path: Seq<char>,
    owner: Seq<char>,
    name: Seq<char>,
) -> bool {
    origin.len() > 0 && free_of(origin, '/') && has_interior_dot(origin) && sub_path_form(sub_path)
        && owner.len() > 0 && free_of(owner, '/') && name.len() > 0 && free_of(name, '/') && s
        == origin + sub_path + owner + seq!['/'] + name
}

/// The self-hosted repository shape accepts `raw` once its optional scheme is
/// stripped.
pub open spec fn hosted_matches(raw: Seq<char>) -> bool {
    exists|origin: Seq<char>, sub_path: Seq<char>, owner: Seq<char>, name: Seq<char>|
        hosted_form(raw.skip(scheme_prefix_len(raw)), origin, sub_path, owner, name)
}

/// Where each piece of a hosted split lies inside the whole string, and where
/// its slashes can and cannot stand.
proof fn lemma_hosted_landmarks(
    t: Seq<char>,
    o: Seq<char>,
    p: Seq<char>,
    ow: Seq<char>,
    n: Seq<char>,
)
    requires
        hosted_form(t, o, p, ow, n),
    ensures
        t.len() == o.len() + p.len() + ow.len() + 1 + n.len(),
        o.len() >= 3,
        forall|j: int| 0 <= j < o.len() ==> t[j] == o[j],
        forall|j: int| o.len() <= j < o.len() + p.len() ==> t[j] == p[j - o.len()],
        forall|j: int|
            o.len() + p.len() <= j < o.len() + p.len() + ow.len() ==> t[j] == ow[j - o.len()
                - p.len()],
        t[(o.len() + p.len() + ow.len()) as int] == '/',
        forall|j: int|
            o.len() + p.len() + ow.len() < j < t.len() ==> t[j] == n[j - (o.len() + p.len()
                + ow.len()) - 1],
        forall|j: int| 0 <= j < o.len() ==> t[j] != '/',
        t[o.len() as int] == '/',
        t[(o.len() + p.len() - 1) as int] == '/',
        forall|j: int| o.len() + p.len() <= j < o.len() + p.len() + ow.len() ==> t[j] != '/',
        forall|j: int| o.len() + p.len() + ow.len() < j < t.len() ==> t[j] != '/',
{
    let cat = o + p + ow + seq!['/'] + n;
    assert(t.len() == o.len() + p.len() + ow.len() + 1 + n.len());
    assert(o.len() >= 3) by {
        let i = choose|i: int| 1 <= i <= o.len() - 2 && o[i] == '.';
    }
    assert forall|j: int| 0 <= j < o.len() implies t[j] == o[j] by {
        assert(t[j] == cat[j]);
    }
    assert forall|j: int| o.len() <= j < o.len() + p.len() implies t[j] == p[j - o.len()] by {
        assert(t[j] == cat[j]);
    }
    assert forall|j: int|
        o.len() + p.len() <= j < o.len() + p.len() + ow.len() implies t[j] == ow[j - o.len()
        - p.len()] by {
        assert(t[j] == cat[j]);
    }
    assert(t[(o.len() + p.len() + ow.len()) as int] == '/') by {
        assert(t[(o.len() + p.len() + ow.len()) as int] == cat[(o.len() + p.len() + ow.len()) as int]);
    }
    assert forall|j: int|
        o.len() + p.len() + ow.len() < j < t.len() implies t[j] == n[j - (o.len() + p.len()
        + ow.len()) - 1] by {
        assert(t[j] == cat[j]);
    }
    assert forall|j: int| 0 <= j < o.len() implies t[j] != '/' by {
        assert(t[j] == o[j]);
    }
    assert(t[o.len() as int] == p[0]);
    assert(t[(o.len() + p.len() - 1) as int] == p[(p.len() - 1) as int]);
    assert forall|j: int|
        o.len() + p.len() <= j < o.len() + p.len() + ow.len() implies t[j] != '/' by {
        assert(t[j] == ow[j - o.len() - p.len()]);
    }
    assert forall|j: int| o.len() + p.len() + ow.len() < j < t.len() implies t[j] != '/' by {
        assert(t[j] == n[j - (o.len() + p.len() + ow.len()) - 1]);
    }
}

/// Splits the tail of `s` starting at `from` into origin, sub-path, owner and
/// name when it has the self-hosted shape.
#[verifier::rlimit(60)]
fn split_hosted(s: &str, from: usize) -> (r: Option<(String, String, String, String)>)
    requires
        from <= s@.len(),
    ensures
        match r {
            Some(q) => hosted_form(s@.skip(from as int), q.0@, q.1@, q.2@, q.3@),
            None => !exists|o: Seq<char>, p: Seq<char>, ow: Seq<char>, n: Seq<char>|
                hosted_form(s@.skip(from as int), o, p, ow, n),
        },
{
    let ghost t = s@.skip(from as int);
    proof {
        assert forall|i: int| 0 <= i < t.len() implies t[i] == s@[i + from] by {}
    }
    let len = s.unicode_len();

    // the origin ends at the first slash
    let f = match find_char_from(s, from, '/') {
        Some(f) => f,
        None => {
            proof {
                if exists|o: Seq<char>, p: Seq<char>, ow: Seq<char>, n: Seq<char>|
                    hosted_form(t, o, p, ow, n) {
                    let (o, p, ow, n) = choose|
                        o: Seq<char>,
                        p: Seq<char>,
                        ow: Seq<char>,
                        n: Seq<char>,
                    | hosted_form(t, o, p, ow, n);
                    lemma_hosted_landmarks(t, o, p, ow, n);
                    assert(t[o.len() as int] == s@[o.len() + from]);
                }
            }
            return None;
        },
    };

    // the name begins after the last slash
    let l = match rfind_char_before(s, len, '/') {
        Some(l) => l,
        None => {
            proof {
                assert(false);
            }
            return None;
        },
    };

    if l == f {
        // a single slash cannot close both the sub-path and the owner
        proof {
            if exists|o: Seq<char>, p: Seq<char>, ow: Seq<char>, n: Seq<char>|
                hosted_form(t, o, p, ow, n) {
                let (o, p, ow, n) = choose|o: Seq<char>, p: Seq<char>, ow: Seq<char>, n: Seq<char>|
                    hosted_form(t, o, p, ow, n);
                lemma_hosted_landmarks(t, o, p, ow, n);
                let a2 = (o.len() + p.len() + ow.len()) as int;
                assert(t[a2] == s@[a2 + from]);
                assert(l >= a2 + from);
                assert(t[o.len() as int] == s@[o.len() + from]);
                assert(f <= o.len() + from);
            }
        }
        return None;
    }

    // the owner begins after the second-to-last slash
    let l2 = match rfind_char_before(s, l, '/') {
        Some(l2) => l2,
        None => {
            proof {
                assert(s@[f as int] == '/');
                assert(false);
            }
            return None;
        },
    };

    proof {
        assert(l2 >= f) by {
            assert(s@[f as int] == '/');
        }
    }

    // every failing check below contradicts the landmarks of a hosted split
    let ghost ok = exists|o: Seq<char>, p: Seq<char>, ow: Seq<char>, n: Seq<char>|
        hosted_form(t, o, p, ow, n);
    proof {
        if ok {
            let (o, p, ow, n) = choose|o: Seq<char>, p: Seq<char>, ow: Seq<char>, n: Seq<char>|
                hosted_form(t, o, p, ow, n);
            lemma_hosted_landmarks(t, o, p, ow, n);
            let a0 = o.len() as int;
            let a1 = o.len() + p.len() - 1;
            let a2 = o.len() + p.len() + ow.len();
            // the first slash stands at the end of the origin
            assert(t[a0] == s@[a0 + from]);
            if f - from < a0 {
                assert(t[f - from] == s@[f as int]);
            }
            assert(f - from == a0);
            // the last slash stands before the name
            assert(t[a2 as int] == s@[a2 + from]);
            if l - from > a2 {
                assert(t[l - from] == s@[l as int]);
            }
            if l - from < a2 {
                assert(s@[a2 + from] != '/');
            }
            assert(l - from == a2);
            // the second-to-last slash closes the sub-path
            assert(t[a1 as int] == s@[a1 + from]);
            if l2 - from > a1 {
                assert(t[l2 - from] == s@[l2 as int]);
            }
            if l2 - from < a1 {
                assert(s@[a1 + from] != '/');
            }
            assert(l2 - from == a1);
        }
    }

    if l2 + 1 >= l {
        // empty owner
        proof {
            if ok {
                let (o, p, ow, n) = choose|o: Seq<char>, p: Seq<char>, ow: Seq<char>, n: Seq<char>|
                    hosted_form(t, o, p, ow, n);
                lemma_hosted_landmarks(t, o, p, ow, n);
            }
        }
        return None;
    }
    if l + 1 >= len {
        // empty name
        proof {
            if ok {
                let (o, p, ow, n) = choose|o: Seq<char>, p: Seq<char>, ow: Seq<char>, n: Seq<char>|
                    hosted_form(t, o, p, ow, n);
                lemma_hosted_landmarks(t, o, p, ow, n);
            }
        }
        return None;
    }
    if f < from + 3 || !contains_char_between(s, from + 1, f - 1, '.') {
        // the origin lacks an interior dot
        proof {
            if ok {
                let (o, p, ow, n) = choose|o: Seq<char>, p: Seq<char>, ow: Seq<char>, n: Seq<char>|
                    hosted_form(t, o, p, ow, n);
                lemma_hosted_landmarks(t, o, p, ow, n);
                let i = choose|i: int| 1 <= i <= o.len() - 2 && o[i] == '.';
                assert(t[i] == o[i]);
                assert(t[i] == s@[i + from]);
                assert(from + 1 <= i + from < f - 1);
            }
        }
        return None;
    }
    if has_double_slash(s, f, l2) {
        // an empty segment inside the sub-path
        proof {
            if ok {
                let (o, p, ow, n) = choose|o: Seq<char>, p: Seq<char>, ow: Seq<char>, n: Seq<char>|
                    hosted_form(t, o, p, ow, n);
                lemma_hosted_landmarks(t, o, p, ow, n);
                let j = choose|j: int|
                    f <= j < l2 && (#[trigger] s@[j]) == '/' && s@[j + 1] == '/';
                let a0 = o.len() as int;
                assert(t[j - from] == s@[j]);
                assert(t[j + 1 - from] == s@[j + 1]);
                assert(t[j - from] == p[j - from - a0]);
                assert(t[j + 1 - from] == p[j + 1 - from - a0]);
            }
        }
        return None;
    }

    let origin = substring(s, from, f);
    let sub_path = substring(s, f, l2 + 1);
    let owner = substring(s, l2 + 1, l);
    let name = substring(s, l + 1, len);
    proof {
        assert(origin@.len() == f - from);
        assert(free_of(origin@, '/')) by {
            assert forall|k: int| 0 <= k < origin@.len() implies origin@[k] != '/' by {
                assert(origin@[k] == s@[from + k]);
            }
        }
        assert(has_interior_dot(origin@)) by {
            let i = choose|i: int| from + 1 <= i < f - 1 && s@[i] == '.';
            assert(origin@[i - from] == s@[i]);
            assert(1 <= i - from <= origin@.len() - 2);
        }
        assert(sub_path_form(sub_path@)) by {
            assert(sub_path@.len() == l2 + 1 - f);
            assert(sub_path@[0] == s@[f as int]);
            assert(sub_path@[sub_path@.len() - 1] == s@[l2 as int]);
            assert forall|i: int|
                0 <= i < sub_path@.len() - 1 && (#[trigger] sub_path@[i]) == '/' implies sub_path@[i
                + 1] != '/' by {
                assert(sub_path@[i] == s@[f + i]);
                assert(sub_path@[i + 1] == s@[f + i + 1]);
            }
        }
        assert(free_of(owner@, '/')) by {
            assert forall|k: int| 0 <= k < owner@.len() implies owner@[k] != '/' by {
                assert(owner@[k] == s@[l2 + 1 + k]);
            }
        }
        assert(free_of(name@, '/')) by {
            assert forall|k: int| 0 <= k < name@.len() implies name@[k] != '/' by {
                assert(name@[k] == s@[l + 1 + k]);
            }
        }
        let cat = origin@ + sub_path@ + owner@ + seq!['/'] + name@;
        assert(cat.len() == t.len());
        assert(t =~= cat) by {
            assert forall|j: int| 0 <= j < t.len() implies t[j] == cat[j] by {
                assert(t[j] == s@[j + from]);
                if j < f - from {
                    assert(cat[j] == origin@[j]);
                    assert(origin@[j] == s@[from + j]);
                } else if j < l2 + 1 - from {
                    assert(cat[j] == sub_path@[j - (f - from)]);
                    assert(sub_path@[j - (f - from)] == s@[f + (j - (f - from))]);
                } else if j < l - from {
                    assert(cat[j] == owner@[j - (l2 + 1 - from)]);
                    assert(owner@[j - (l2 + 1 - from)] == s@[l2 + 1 + (j - (l2 + 1 - from))]);
                } else if j == l - from {
                    assert(cat[j] == '/');
                    assert(s@[l as int] == '/');
                } else {
                    assert(cat[j] == name@[j - (l + 1 - from)]);
                    assert(name@[j - (l + 1 - from)] == s@[l + 1 + (j - (l + 1 - from))]);
                }
            }
        }
        assert(t == cat);
    }
    Some((origin, sub_path, owner, name))
}

/// A repository resolved from the raw arguments: the platform together with
/// the normalized location pieces, and the verbatim input for diagnostics.
#[derive(Clone, Debug, PartialEq)]
pub struct Repository {
    pub website: GitWebsite,
    pub owner: String,
    pub name: String,
    // for self hosted websites like Gitea
    pub origin: String,
    pub sub_path: String,
    pub passed_string: String,
}

/// The repository string did not have the shape its platform requires.
#[derive(Clone, Debug, PartialEq)]
pub enum ParseRepositoryError {
    InvalidRepository(String),
}

impl ParseRepositoryError {
    /// The one-line diagnostic for this error.
    pub fn message(&self) -> (r: String)
        ensures
            match self {
                ParseRepositoryError::InvalidRepository(s) => r@ == "invalid repository: "@ + s@,
            },
    {
        match self {
            ParseRepositoryError::InvalidRepository(repository_string) => {
                let mut m = "invalid repository: ".to_owned();
                m.append(repository_string.as_str());
                m
            },
        }
    }
}

/// What `parse_repository` promises of a returned repository: the platform
/// and the verbatim input are recorded, and the location pieces split the
/// input as the platform's shape demands.
pub open spec fn parsed_repository_ok(raw: Seq<char>, website: GitWebsite, r: Repository) -> bool {
    r.website == website && r.passed_string@ == raw && match website {
        GitWebsite::GitHub => github_parse_ok(raw, r.owner@, r.name@) && r.origin@
            == "github.com"@ && r.sub_path@ == "/"@,
        GitWebsite::Gitea | GitWebsite::GitLab => hosted_form(
            raw.skip(scheme_prefix_len(raw)),
            r.origin@,
            r.sub_path@,
            r.owner@,
            r.name@,
        ),
    }
}

/// The invariant every parsed repository keeps: owner and name are
/// non-empty and slash-free, and the sub-path starts and ends with a slash,
/// a bare slash standing for none.
pub open spec fn repository_wf(r: Repository) -> bool {
    r.owner@.len() > 0 && free_of(r.owner@, '/') && r.name@.len() > 0 && free_of(r.name@, '/')
        && sub_path_form(r.sub_path@)
}

/// Law: whatever parsing accepts satisfies the repository invariant.
pub proof fn lemma_parsed_repository_wf(raw: Seq<char>, website: GitWebsite, r: Repository)
    requires
        parsed_repository_ok(raw, website, r),
    ensures
        repository_wf(r),
{
    match website {
        GitWebsite::GitHub => {
            assert(r.sub_path@ == "/"@);
            reveal_strlit("/");
            assert(r.sub_path@.len() == 1);
            assert(r.sub_path@[0] == '/');
        },
        GitWebsite::Gitea | GitWebsite::GitLab => {},
    }
}

/// The platform's structural shape accepts the raw string.
pub open spec fn repository_matches(raw: Seq<char>, website: GitWebsite) -> bool {
    match website {
        GitWebsite::GitHub => github_matches(raw),
        GitWebsite::Gitea | GitWebsite::GitLab => hosted_matches(raw),
    }
}

/// Measures the scheme prefix of `s`.
fn scheme_len(s: &str) -> (r: usize)
    ensures
        r == scheme_prefix_len(s@),
        r <= s@.len(),
{
    if has_prefix(s, "http://") {
        proof {
            reveal_strlit("http://");
        }
        7
    } else if has_prefix(s, "https://") {
        proof {
            reveal_strlit("https://");
        }
        8
    } else {
        0
    }
}

/// Parses the repository string under the shape of the given platform.
pub fn parse_repository(repository_string: String, website_type: GitWebsite) -> (r: Result<
    Repository,
    ParseRepositoryError,
>)
    ensures
        match r {
            Ok(repo) => repository_matches(repository_string@, website_type)
                && parsed_repository_ok(repository_string@, website_type, repo),
            Err(e) => !repository_matches(repository_string@, website_type) && match e {
                ParseRepositoryError::InvalidRepository(s) => s@ == repository_string@,
            },
        },
{
    match website_type {
        GitWebsite::GitHub => {
            match parse_github_owner_name(repository_string.as_str()) {
                Some(pair) => Ok(
                    Repository {
                        website: website_type,
                        owner: pair.0,
                        name: pair.1,
                        origin: "github.com".to_owned(),
                        sub_path: "/".to_owned(),
                        passed_string: repository_string,
                    },
                ),
                None => Err(ParseRepositoryError::InvalidRepository(repository_string)),
            }
        },
        GitWebsite::Gitea | GitWebsite::GitLab => {
            let k = scheme_len(repository_string.as_str());
            match split_hosted(repository_string.as_str(), k) {
                Some(q) => Ok(
                    Repository {
                        website: website_type,
                        owner: q.2,
                        name: q.3,
                        origin: q.0,
                        sub_path: q.1,
                        passed_string: repository_string,
                    },
                ),
                None => Err(ParseRepositoryError::InvalidRepository(repository_string)),
            }
        },
    }
}

/// Recognizes the platform from the repository string: after an optional
/// scheme, a string under `github.com/` is GitHub and one under `gitlab.com/`
/// is GitLab; nothing else is inferred.
pub open spec fn spec_guess_website_type(s: Seq<char>) -> Option<GitWebsite> {
    if "github.com/"@.is_prefix_of(s.skip(scheme_prefix_len(s))) {
        Some(GitWebsite::GitHub)
    } else if "gitlab.com/"@.is_prefix_of(s.skip(scheme_prefix_len(s))) {
        Some(GitWebsite::GitLab)
    } else {
        None
    }
}

/// Guesses the hosting platform from the raw repository string.
pub fn guess_website_type(repository_string: &str) -> (r: Option<GitWebsite>)
    ensures
        r == spec_guess_website_type(repository_string@),
{
    let len = repository_string.unicode_len();
    let k = scheme_len(repository_string);
    let rest = repository_string.substring_char(k, len);
    proof {
        assert(rest@ =~= repository_string@.skip(k as int));
    }
    if has_prefix(rest, "github.com/") {
        Some(GitWebsite::GitHub)
    } else if has_prefix(rest, "gitlab.com/") {
        Some(GitWebsite::GitLab)
    } else {
        None
    }
}

/// Law: every string `owner/name` with non-empty, slash-free owner and name
/// is accepted by the GitHub shape, and any split the shape admits returns
/// exactly that owner and that name.
pub proof fn lemma_github_owner_name_round_trip(
    raw: Seq<char>,
    owner: Seq<char>,
    name: Seq<char>,
)
    requires
        owner.len() > 0,
        free_of(owner, '/'),
        name.len() > 0,
        free_of(name, '/'),
        raw == owner + seq!['/'] + name,
    ensures
        github_matches(raw),
        github_parse_ok(raw, owner, name),
        forall|o2: Seq<char>, n2: Seq<char>|
            github_parse_ok(raw, o2, n2) ==> o2 == owner && n2 == name,
{
    assert(owner_name_form(raw, owner, name));
    lemma_owner_name_slash(raw, owner, name);
    let k = github_prefix_len(raw);
    if "http://github.com/"@.is_prefix_of(raw) {
        reveal_strlit("http://github.com/");
        assert(raw[5] == "http://github.com/"@[5]);
        assert(raw[6] == "http://github.com/"@[6]);
        assert(false);
    } else if "https://github.com/"@.is_prefix_of(raw) {
        reveal_strlit("https://github.com/");
        assert(raw[6] == "https://github.com/"@[6]);
        assert(raw[7] == "https://github.com/"@[7]);
        assert(false);
    } else if "github.com/"@.is_prefix_of(raw) {
        reveal_strlit("github.com/");
        assert(raw[10] == "github.com/"@[10]);
        assert(owner.len() == 10);
        let stripped = raw.skip(11);
        assert(stripped =~= name) by {
            assert forall|j: int| 0 <= j < stripped.len() implies stripped[j] == name[j] by {
                assert(stripped[j] == raw[j + 11]);
            }
        }
        assert(!owner_name_matches(stripped)) by {
            if owner_name_matches(stripped) {
                let (o3, n3) = choose|o3: Seq<char>, n3: Seq<char>|
                    owner_name_form(stripped, o3, n3);
                lemma_owner_name_slash(stripped, o3, n3);
                assert(name[o3.len() as int] == '/');
            }
        }
        assert forall|o2: Seq<char>, n2: Seq<char>| github_parse_ok(raw, o2, n2) implies o2
            == owner && n2 == name by {
            lemma_owner_name_unique(raw, o2, n2, owner, name);
        }
    } else {
        assert(k == 0);
        assert(raw.skip(0) =~= raw);
        assert(owner_name_form(raw.skip(0), owner, name));
        assert forall|o2: Seq<char>, n2: Seq<char>| github_parse_ok(raw, o2, n2) implies o2
            == owner && n2 == name by {
            lemma_owner_name_unique(raw, o2, n2, owner, name);
        }
    }
}

/// A hosted split of a string is unique: each boundary is forced by where
/// the slashes stand.
proof fn lemma_hosted_unique(
    t: Seq<char>,
    o1: Seq<char>,
    p1: Seq<char>,
    ow1: Seq<char>,
    n1: Seq<char>,
    o2: Seq<char>,
    p2: Seq<char>,
    ow2: Seq<char>,
    n2: Seq<char>,
)
    requires
        hosted_form(t, o1, p1, ow1, n1),
        hosted_form(t, o2, p2, ow2, n2),
    ensures
        o1 == o2,
        p1 == p2,
        ow1 == ow2,
        n1 == n2,
{
    lemma_hosted_landmarks(t, o1, p1, ow1, n1);
    lemma_hosted_landmarks(t, o2, p2, ow2, n2);
    assert(o1.len() == o2.len()) by {
        if o1.len() < o2.len() {
            assert(t[o1.len() as int] == '/');
            assert(t[o1.len() as int] != '/');
        }
        if o2.len() < o1.len() {
            assert(t[o2.len() as int] == '/');
            assert(t[o2.len() as int] != '/');
        }
    }
    assert(n1.len() == n2.len()) by {
        let a2_1 = (o1.len() + p1.len() + ow1.len()) as int;
        let a2_2 = (o2.len() + p2.len() + ow2.len()) as int;
        if a2_1 < a2_2 {
            assert(t[a2_2] == '/');
            assert(t[a2_2] != '/');
        }
        if a2_2 < a2_1 {
            assert(t[a2_1] == '/');
            assert(t[a2_1] != '/');
        }
    }
    assert(p1.len() == p2.len()) by {
        let a1_1 = (o1.len() + p1.len() - 1) as int;
        let a1_2 = (o2.len() + p2.len() - 1) as int;
        let a2 = (o1.len() + p1.len() + ow1.len()) as int;
        assert(a2 == o2.len() + p2.len() + ow2.len());
        if a1_1 < a1_2 {
            assert(t[a1_2] == '/');
            assert(o1.len() + p1.len() <= a1_2 < a2);
            assert(t[a1_2] != '/');
        }
        if a1_2 < a1_1 {
            assert(t[a1_1] == '/');
            assert(o2.len() + p2.len() <= a1_1 < a2);
            assert(t[a1_1] != '/');
        }
    }
    assert(ow1.len() == ow2.len());
    assert(o1 =~= o2) by {
        assert forall|i: int| 0 <= i < o1.len() implies o1[i] == o2[i] by {
            assert(t[i] == o1[i]);
            assert(t[i] == o2[i]);
        }
    }
    assert(p1 =~= p2) by {
        assert forall|i: int| 0 <= i < p1.len() implies p1[i] == p2[i] by {
            assert(t[i + o1.len()] == p1[i]);
            assert(t[i + o2.len()] == p2[i]);
        }
    }
    assert(ow1 =~= ow2) by {
        assert forall|i: int| 0 <= i < ow1.len() implies ow1[i] == ow2[i] by {
            assert(t[i + o1.len() + p1.len()] == ow1[i]);
            assert(t[i + o2.len() + p2.len()] == ow2[i]);
        }
    }
    assert(n1 =~= n2) by {
        assert forall|i: int| 0 <= i < n1.len() implies n1[i] == n2[i] by {
            assert(t[i + o1.len() + p1.len() + ow1.len() + 1] == n1[i]);
            assert(t[i + o2.len() + p2.len() + ow2.len() + 1] == n2[i]);
        }
    }
}

/// No two slashes stand next to each other in a hosted split.
proof fn lemma_hosted_no_double_slash(
    t: Seq<char>,
    o: Seq<char>,
    p: Seq<char>,
    ow: Seq<char>,
    n: Seq<char>,
    j: int,
)
    requires
        hosted_form(t, o, p, ow, n),
        0 <= j,
        j + 1 < t.len(),
        t[j] == '/',
    ensures
        t[j + 1] != '/',
{
    lemma_hosted_landmarks(t, o, p, ow, n);
    let a0 = o.len() as int;
    let a1 = o.len() + p.len() - 1;
    let a2 = (o.len() + p.len() + ow.len()) as int;
    if j < a1 && j >= a0 {
        assert(t[j] == p[j - a0]);
        assert(t[j + 1] == p[j + 1 - a0]);
        assert(p[j + 1 - a0] != '/');
    } else if j == a1 {
        assert(t[j + 1] != '/');
    } else if j == a2 {
        assert(t[j + 1] != '/');
    } else {
        assert(t[j] != '/');
    }
}

/// The sub-path written from path segments: a slash, then each segment
/// followed by a slash.
pub open spec fn slash_join(segs: Seq<Seq<char>>) -> Seq<char>
    decreases segs.len(),
{
    if segs.len() == 0 {
        seq!['/']
    } else {
        seq!['/'] + segs[0] + slash_join(segs.skip(1))
    }
}

/// Joining non-empty slash-free segments yields a well-formed sub-path.
proof fn lemma_slash_join_form(segs: Seq<Seq<char>>)
    requires
        forall|i: int| 0 <= i < segs.len() ==> (#[trigger] segs[i]).len() > 0 && free_of(segs[i], '/'),
    ensures
        sub_path_form(slash_join(segs)),
    decreases segs.len(),
{
    let p = slash_join(segs);
    if segs.len() == 0 {
        assert(p =~= seq!['/']);
        assert(p[0] == '/');
    } else {
        let s0 = segs[0];
        let rest = slash_join(segs.skip(1));
        assert(forall|i: int|
            0 <= i < segs.skip(1).len() ==> (#[trigger] segs.skip(1)[i]).len() > 0 && free_of(
                segs.skip(1)[i],
                '/',
            )) by {
            assert forall|i: int|
                0 <= i < segs.skip(1).len() implies (#[trigger] segs.skip(1)[i]).len() > 0
                && free_of(segs.skip(1)[i], '/') by {
                assert(segs.skip(1)[i] == segs[i + 1]);
            }
        }
        lemma_slash_join_form(segs.skip(1));
        assert(p.len() == 1 + s0.len() + rest.len());
        assert(p[0] == '/');
        assert(p[p.len() - 1] == rest[rest.len() - 1]);
        assert forall|i: int| 0 <= i < p.len() - 1 && (#[trigger] p[i]) == '/' implies p[i + 1]
            != '/' by {
            if i == 0 {
                assert(p[1] == s0[0]);
            } else if i < 1 + s0.len() {
                assert(p[i] == s0[i - 1]);
            } else {
                assert(p[i] == rest[i - 1 - s0.len()]);
                assert(p[i + 1] == rest[i - s0.len()]);
            }
        }
    }
}

/// Law: a hosted string built from an origin, any run of path segments, an
/// owner and a name parses back into exactly those pieces, the segments
/// standing in the sub-path with a slash around each.
pub proof fn lemma_hosted_segments_round_trip(
    raw: Seq<char>,
    origin: Seq<char>,
    segs: Seq<Seq<char>>,
    owner: Seq<char>,
    name: Seq<char>,
)
    requires
        origin.len() > 0,
        free_of(origin, '/'),
        has_interior_dot(origin),
        forall|i: int| 0 <= i < segs.len() ==> (#[trigger] segs[i]).len() > 0 && free_of(segs[i], '/'),
        owner.len() > 0,
        free_of(owner, '/'),
        name.len() > 0,
        free_of(name, '/'),
        raw == origin + slash_join(segs) + owner + seq!['/'] + name,
    ensures
        scheme_prefix_len(raw) == 0,
        hosted_matches(raw),
        forall|o2: Seq<char>, p2: Seq<char>, ow2: Seq<char>, n2: Seq<char>|
            hosted_form(raw.skip(scheme_prefix_len(raw)), o2, p2, ow2, n2) ==> o2 == origin && p2
                == slash_join(segs) && ow2 == owner && n2 == name,
{
    let p = slash_join(segs);
    lemma_slash_join_form(segs);
    assert(hosted_form(raw, origin, p, owner, name));
    lemma_hosted_landmarks(raw, origin, p, owner, name);
    assert(scheme_prefix_len(raw) == 0) by {
        if "http://"@.is_prefix_of(raw) {
            reveal_strlit("http://");
            assert(raw[5] == "http://"@[5]);
            assert(raw[6] == "http://"@[6]);
            lemma_hosted_no_double_slash(raw, origin, p, owner, name, 5);
        }
        if "https://"@.is_prefix_of(raw) {
            reveal_strlit("https://");
            assert(raw[6] == "https://"@[6]);
            assert(raw[7] == "https://"@[7]);
            lemma_hosted_no_double_slash(raw, origin, p, owner, name, 6);
        }
    }
    assert(raw.skip(0) =~= raw);
    assert(hosted_form(raw.skip(0), origin, p, owner, name));
    assert forall|o2: Seq<char>, p2: Seq<char>, ow2: Seq<char>, n2: Seq<char>|
        hosted_form(raw.skip(scheme_prefix_len(raw)), o2, p2, ow2, n2) implies o2 == origin && p2
        == slash_join(segs) && ow2 == owner && n2 == name by {
        lemma_hosted_unique(raw, o2, p2, ow2, n2, origin, p, owner, name);
    }
}

/// The resolved invocation: which command runs, with its arguments.
pub struct Arguments {
    pub command_mode: CommandMode,
}

/// The two commands: download an asset, or query releases or assets.
pub enum CommandMode {
    Download(DownloadArgs),
    Query(QueryArgs),
}

/// Arguments of a download: the repository, the asset-name pattern, the tag
/// to take (latest when absent), whether prereleases count, and whether the
/// written filename is printed.
pub struct DownloadArgs {
    pub repository: Repository,
    pub asset_pattern: String,
    pub tag: Option<String>,
    pub allow_prerelease: bool,
    pub print_filename: bool,
}

/// Arguments of a query: which of the two query kinds runs.
pub struct QueryArgs {
    pub query_type: QueryType,
}

/// The two query kinds: releases, or assets of one release.
pub enum QueryType {
    Releases(ReleasesQueryArgs),
    Assets(AssetsQueryArgs),
}

/// Arguments of a releases query: the repository, whether prereleases are
/// listed, and how many tags to show (at least one).
pub struct ReleasesQueryArgs {
    pub repository: Repository,
    pub allow_prerelease: bool,
    pub count: usize,
}

/// Arguments of an assets query: the repository, the tag whose assets are
/// listed (latest when absent), and the asset-name pattern.
pub struct AssetsQueryArgs {
    pub repository: Repository,
    pub tag: Option<String>,
    pub pattern: String,
}

/// The caller's IP-family preference for outgoing connections.
#[derive(Clone, Copy, Debug, PartialEq, Eq, Structural)]
pub enum IpType {
    Any,
    IPV4,
    IPV6,
}

impl IpType {
    /// Whether an address of the given family may be used: any family under
    /// `Any`, else only the preferred one.
    pub fn admits(&self, is_ipv4: bool) -> (r: bool)
        ensures
            r == match self {
                IpType::Any => true,
                IpType::IPV4 => is_ipv4,
                IpType::IPV6 => !is_ipv4,
            },
    {
        match self {
            IpType::Any => true,
            IpType::IPV4 => is_ipv4,
            IpType::IPV6 => !is_ipv4,
        }
    }
}

/// Why raw arguments could not be turned into a repository: the string did
/// not parse, or no platform was given and none could be guessed.
#[derive(Clone, Debug, PartialEq)]
pub enum RepositoryArgumentsToRepositoryError {
    ParseRepository(ParseRepositoryError),
    GuessWebsiteFail,
}

/// The platform that governs parsing: the explicit one when given, else the
/// guessed one.
pub open spec fn effective_website(raw: Seq<char>, website_type: Option<GitWebsite>) -> Option<
    GitWebsite,
> {
    match website_type {
        Some(w) => Some(w),
        None => spec_guess_website_type(raw),
    }
}

impl RepositoryArgumentsToRepositoryError {
    /// The one-line diagnostic for this error.
    pub fn message(&self) -> (r: String)
        ensures
            match self {
                RepositoryArgumentsToRepositoryError::ParseRepository(pe) => match pe {
                    ParseRepositoryError::InvalidRepository(s) => r@ == "invalid repository: "@
                        + s@,
                },
                RepositoryArgumentsToRepositoryError::GuessWebsiteFail => r@
                    == "failed to guess website type"@,
            },
    {
        match self {
            RepositoryArgumentsToRepositoryError::ParseRepository(pe) => pe.message(),
            RepositoryArgumentsToRepositoryError::GuessWebsiteFail => {
                "failed to guess website type".to_owned()
            },
        }
    }
}

impl Repository {
    /// Resolves the raw repository argument: uses the explicit platform or
    /// guesses one from the string, then parses the string under it.
    pub fn from_arguments(repository: String, website_type: Option<GitWebsite>) -> (r: Result<
        Repository,
        RepositoryArgumentsToRepositoryError,
    >)
        ensures
            match r {
                Ok(repo) => effective_website(repository@, website_type) is Some
                    && repository_matches(
                    repository@,
                    effective_website(repository@, website_type).unwrap(),
                ) && parsed_repository_ok(
                    repository@,
                    effective_website(repository@, website_type).unwrap(),
                    repo,
                ),
                Err(e) => match e {
                    RepositoryArgumentsToRepositoryError::GuessWebsiteFail => effective_website(
                        repository@,
                        website_type,
                    ) is None,
                    RepositoryArgumentsToRepositoryError::ParseRepository(pe) => effective_website(
                        repository@,
                        website_type,
                    ) is Some && !repository_matches(
                        repository@,
                        effective_website(repository@, website_type).unwrap(),
                    ) && match pe {
                        ParseRepositoryError::InvalidRepository(s) => s@ == repository@,
                    },
                },
            },
    {
        // first we check if the website type has been provided as an argument
        // if not we try to guess it from the passed repository
        let website_type = match website_type {
            Some(website_type) => Some(website_type),
            None => guess_website_type(repository.as_str()),
        };

        // if it could not be guessed we return an error
        let website_type = match website_type {
            Some(w) => w,
            None => {
                return Err(RepositoryArgumentsToRepositoryError::GuessWebsiteFail);
            },
        };

        match parse_repository(repository, website_type) {
            Ok(repo) => Ok(repo),
            Err(e) => Err(RepositoryArgumentsToRepositoryError::ParseRepository(e)),
        }
    }
}

} // verus!
