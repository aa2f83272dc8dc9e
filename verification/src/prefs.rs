//! App-level configuration: the last chosen theme and the recent-documents
//! list. Reads are tolerant — a missing, unparsable, or future-schema file
//! yields defaults — and malformed recents entries are dropped.

use vstd::prelude::*;

use crate::state::{format_rfc3339_utc, rfc3339_text};
use crate::strings::{concat, str_equals};

verus! {

/// Schema version written and understood for the app configuration.
pub const CONFIG_SCHEMA: u32 = 1;

/// Maximum number of recent documents retained.
pub const MAX_RECENTS: usize = 10;

/// Theme of a fresh configuration.
pub const DEFAULT_APP_THEME: &'static str = "Dark";

/// One recent document.
#[derive(Debug, Clone, PartialEq, Eq)]
pub struct Recent {
    pub path: String,
    /// RFC 3339 UTC timestamp of the last open.
    pub last_opened: String,
}

/// App configuration: appearance choice plus recent documents, most recent
/// first.
#[derive(Debug, Clone, PartialEq, Eq)]
pub struct Prefs {
    pub theme: String,
    pub recents: Vec<Recent>,
}

/// Whether two path strings name the same path: std's `Path` equality,
/// which compares path components (so `a//b` and `a/b/` equal `a/b`).
pub uninterp spec fn same_path(a: Seq<char>, b: Seq<char>) -> bool;

/// Compare two paths component-wise; std's `PartialEq` for `Path`.
#[verifier::external_body]
fn paths_equal(a: &str, b: &str) -> (eq: bool)
    ensures
        eq == same_path(a@, b@),
{
    std::path::Path::new(a) == std::path::Path::new(b)
}

impl Default for Prefs {
    fn default() -> (p: Self)
        ensures
            p.theme@ == DEFAULT_APP_THEME@,
            p.recents@.len() == 0,
    {
        Prefs { theme: DEFAULT_APP_THEME.to_owned(), recents: Vec::new() }
    }
}

/// The recents of `s` whose path differs from `path`, in order.
pub open spec fn recents_without(s: Seq<Recent>, path: Seq<char>) -> Seq<Recent>
    decreases s.len(),
{
    if s.len() == 0 {
        seq![]
    } else {
        let rest = recents_without(s.drop_last(), path);
        if same_path(s.last().path@, path) {
            rest
        } else {
            rest.push(s.last())
        }
    }
}

/// At most the first `n` elements.
pub open spec fn at_most<T>(s: Seq<T>, n: int) -> Seq<T> {
    if s.len() <= n {
        s
    } else {
        s.take(n)
    }
}

impl Prefs {
    /// Record an open of `path` at the time `now` (seconds since the Unix
    /// epoch, stamped as RFC 3339 UTC text): earlier entries for the same
    /// path are dropped, the new entry goes to the front, and the list is
    /// capped at [`MAX_RECENTS`].
    pub fn record_open(&mut self, path: &str, now: u64)
        ensures
            final(self).theme == old(self).theme,
            final(self).recents@.len() >= 1,
            final(self).recents@[0].path@ == path@,
            final(self).recents@[0].last_opened@ == rfc3339_text(now as nat),
            final(self).recents@.drop_first() == at_most(
                recents_without(old(self).recents@, path@),
                MAX_RECENTS - 1,
            ),
    {
        let ghost orig = self.recents@;
        let ghost theme0 = self.theme;
        let mut i: usize = 0;
        let ghost mut k: int = 0;
        while i < self.recents.len()
            invariant
                0 <= k <= orig.len(),
                i <= self.recents@.len(),
                self.recents@.subrange(0, i as int) == recents_without(orig.take(k), path@),
                self.recents@.subrange(i as int, self.recents@.len() as int) == orig.skip(k),
                self.theme == theme0,
            decreases self.recents@.len() - i,
        {
            assert(orig.skip(k).len() == self.recents@.len() - i);
            assert(orig.take(k + 1).drop_last() == orig.take(k));
            assert(self.recents@[i as int] == orig[k]) by {
                assert(self.recents@.subrange(i as int, self.recents@.len() as int)[0]
                    == self.recents@[i as int]);
            }
            let ghost before = self.recents@;
            if paths_equal(self.recents[i].path.as_str(), path) {
                self.recents.remove(i);
                assert(self.recents@.subrange(0, i as int) == before.subrange(0, i as int));
            } else {
                i = i + 1;
                assert(self.recents@.subrange(0, i as int) == before.subrange(0, i - 1).push(
                    before[i - 1],
                ));
            }
            proof {
                k = k + 1;
                assert(orig.skip(k) == orig.skip(k - 1).drop_first());
            }
            assert(self.recents@.subrange(i as int, self.recents@.len() as int) == orig.skip(k));
        }
        assert(k == orig.len());
        assert(orig.take(k) == orig);
        assert(self.recents@ == self.recents@.subrange(0, i as int));
        let ghost kept = self.recents@;
        let last_opened = format_rfc3339_utc(now);
        self.recents.insert(0, Recent { path: path.to_owned(), last_opened });
        self.recents.truncate(MAX_RECENTS);
        assert(self.recents@.drop_first() == at_most(kept, MAX_RECENTS - 1));
    }
}

/// A recents entry survives loading when both its path and its timestamp
/// are non-empty.
pub open spec fn recent_is_complete(r: Recent) -> bool {
    r.path@.len() > 0 && r.last_opened@.len() > 0
}

/// The complete entries among the first `n`.
pub open spec fn complete_recents(s: Seq<Recent>) -> Seq<Recent>
    decreases s.len(),
{
    if s.len() == 0 {
        seq![]
    } else {
        let rest = complete_recents(s.drop_last());
        if recent_is_complete(s.last()) {
            rest.push(s.last())
        } else {
            rest
        }
    }
}

/// Build the configuration from a parsed config file: a newer schema gives
/// the defaults; a missing or empty theme falls back to the default theme;
/// of the first [`MAX_RECENTS`] recents entries, those missing a path or a
/// timestamp are dropped.
pub fn prefs_from_config(schema_version: u32, theme: Option<String>, recents: Vec<Recent>) -> (p:
    Prefs)
    ensures
        schema_version > CONFIG_SCHEMA ==> p.theme@ == DEFAULT_APP_THEME@ && p.recents@.len()
            == 0,
        schema_version <= CONFIG_SCHEMA ==> {
            &&& p.theme@ == match theme {
                Some(t) => if t@.len() > 0 {
                    t@
                } else {
                    DEFAULT_APP_THEME@
                },
                None => DEFAULT_APP_THEME@,
            }
            &&& p.recents@ == complete_recents(at_most(recents@, MAX_RECENTS as int))
        },
{
    if schema_version > CONFIG_SCHEMA {
        return Prefs::default();
    }
    let theme = match theme {
        Some(t) => if t.unicode_len() > 0 {
            t
        } else {
            DEFAULT_APP_THEME.to_owned()
        },
        None => DEFAULT_APP_THEME.to_owned(),
    };
    let ghost given = recents@;
    let mut recents = recents;
    recents.truncate(MAX_RECENTS);
    let ghost first = recents@;
    assert(first == at_most(given, MAX_RECENTS as int));
    let mut i: usize = 0;
    let ghost mut k: int = 0;
    while i < recents.len()
        invariant
            0 <= k <= first.len(),
            i <= recents@.len(),
            recents@.subrange(0, i as int) == complete_recents(first.take(k)),
            recents@.subrange(i as int, recents@.len() as int) == first.skip(k),
        decreases recents@.len() - i,
    {
        assert(first.skip(k).len() == recents@.len() - i);
        assert(first.take(k + 1).drop_last() == first.take(k));
        assert(recents@[i as int] == first[k]) by {
            assert(recents@.subrange(i as int, recents@.len() as int)[0] == recents@[i as int]);
        }
        let ghost before = recents@;
        if recents[i].path.unicode_len() > 0 && recents[i].last_opened.unicode_len() > 0 {
            i = i + 1;
            assert(recents@.subrange(0, i as int) == before.subrange(0, i - 1).push(before[i - 1]));
        } else {
            recents.remove(i);
            assert(recents@.subrange(0, i as int) == before.subrange(0, i as int));
        }
        proof {
            k = k + 1;
            assert(first.skip(k) == first.skip(k - 1).drop_first());
        }
        assert(recents@.subrange(i as int, recents@.len() as int) == first.skip(k));
    }
    assert(k == first.len());
    assert(first.take(k) == first);
    assert(recents@ == recents@.subrange(0, i as int));
    Prefs { theme, recents }
}

/// `base` joined with `part` as `Path::join` does: an absolute `part`
/// replaces the base, an empty base gives `part` itself, and otherwise one
/// `/` stands between them.
pub open spec fn join_path(base: Seq<char>, part: Seq<char>) -> Seq<char> {
    if part.len() > 0 && part[0] == '/' {
        part
    } else if base.len() == 0 {
        part
    } else if base.last() == '/' {
        base + part
    } else {
        base + seq!['/'] + part
    }
}

pub fn join(base: &str, part: &str) -> (p: String)
    ensures
        p@ == join_path(base@, part@),
{
    let m = part.unicode_len();
    if m > 0 && part.get_char(0) == '/' {
        return part.to_owned();
    }
    let n = base.unicode_len();
    if n == 0 {
        return part.to_owned();
    }
    if base.get_char(n - 1) == '/' {
        concat(base, part)
    } else {
        let with_slash = concat(base, "/");
        proof {
            reveal_strlit("/");
        }
        let p = concat(with_slash.as_str(), part);
        assert(p@ == base@ + seq!['/'] + part@);
        p
    }
}

/// The configuration directory from `$XDG_CONFIG_HOME` and `$HOME`: the
/// first non-empty of `{xdg}/candi` and `{home}/.config/candi`.
pub open spec fn config_dir_spec(xdg: Option<Seq<char>>, home: Option<Seq<char>>) -> Option<
    Seq<char>,
> {
    match xdg {
        Some(x) if x.len() > 0 => Some(join_path(x, "candi"@)),
        _ => match home {
            Some(h) if h.len() > 0 => Some(join_path(join_path(h, ".config"@), "candi"@)),
            _ => None,
        },
    }
}

/// Config directory from the XDG/Home environment values; empty values
/// count as unset, matching shell convention.
pub fn resolve_config_dir(xdg: Option<&str>, home: Option<&str>) -> (dir: Option<String>)
    ensures
        match dir {
            Some(d) => config_dir_spec(
                match xdg {
                    Some(x) => Some(x@),
                    None => None,
                },
                match home {
                    Some(h) => Some(h@),
                    None => None,
                },
            ) == Some(d@),
            None => config_dir_spec(
                match xdg {
                    Some(x) => Some(x@),
                    None => None,
                },
                match home {
                    Some(h) => Some(h@),
                    None => None,
                },
            ) is None,
        },
{
    if let Some(dir) = xdg {
        if dir.unicode_len() > 0 {
            return Some(join(dir, "candi"));
        }
    }
    match home {
        Some(h) => {
            if h.unicode_len() > 0 {
                let config = join(h, ".config");
                proof {
                    reveal_strlit(".config");
                }
                Some(join(config.as_str(), "candi"))
            } else {
                None
            }
        },
        None => None,
    }
}

/// `config.toml` inside the configuration directory.
pub fn config_path(xdg: Option<&str>, home: Option<&str>) -> (path: Option<String>)
    ensures
        match path {
            Some(p) => exists|d: Seq<char>|
                config_dir_spec(
                    match xdg {
                        Some(x) => Some(x@),
                        None => None,
                    },
                    match home {
                        Some(h) => Some(h@),
                        None => None,
                    },
                ) == Some(d) && p@ == join_path(d, "config.toml"@),
            None => config_dir_spec(
                match xdg {
                    Some(x) => Some(x@),
                    None => None,
                },
                match home {
                    Some(h) => Some(h@),
                    None => None,
                },
            ) is None,
        },
{
    match resolve_config_dir(xdg, home) {
        Some(dir) => {
            proof {
                reveal_strlit("candi");
            }
            assert(dir@.len() > 0);
            Some(join(dir.as_str(), "config.toml"))
        },
        None => None,
    }
}

/// After an open is recorded, no other recent entry names the same path,
/// and the list holds at most [`MAX_RECENTS`] entries.
pub proof fn law_recorded_path_listed_once(s: Seq<Recent>, path: Seq<char>)
    ensures
        forall|i: int|
            0 <= i < recents_without(s, path).len() ==> !same_path(
                #[trigger] recents_without(s, path)[i].path@,
                path,
            ),
        at_most(recents_without(s, path), MAX_RECENTS - 1).len() + 1 <= MAX_RECENTS,
    decreases s.len(),
{
    if s.len() > 0 {
        law_recorded_path_listed_once(s.drop_last(), path);
        let rest = recents_without(s.drop_last(), path);
        let all = recents_without(s, path);
        assert forall|i: int| 0 <= i < all.len() implies !same_path(
            #[trigger] all[i].path@,
            path,
        ) by {
            if i < rest.len() {
                assert(all[i] == rest[i]);
            }
        }
    }
}

/// Entries that all have a path and a timestamp are kept as they are.
proof fn lemma_complete_recents_keep(s: Seq<Recent>)
    requires
        forall|i: int| 0 <= i < s.len() ==> recent_is_complete(#[trigger] s[i]),
    ensures
        complete_recents(s) == s,
    decreases s.len(),
{
    if s.len() > 0 {
        lemma_complete_recents_keep(s.drop_last());
        assert(recent_is_complete(s[s.len() - 1]));
        assert(s.drop_last().push(s.last()) =~= s);
    }
}

/// What a store writes, a load reads back: a configuration of the current
/// schema whose theme is named and whose recents (at most [`MAX_RECENTS`])
/// all have a path and a timestamp is rebuilt unchanged from its fields.
pub proof fn law_stored_prefs_read_back(theme: Seq<char>, recents: Seq<Recent>)
    requires
        theme.len() > 0,
        recents.len() <= MAX_RECENTS,
        forall|i: int| 0 <= i < recents.len() ==> recent_is_complete(#[trigger] recents[i]),
    ensures
        complete_recents(at_most(recents, MAX_RECENTS as int)) == recents,
{
    lemma_complete_recents_keep(recents);
}

} // verus!
