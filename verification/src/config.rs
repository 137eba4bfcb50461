//! Where the launcher's configuration lives, and the defaults of its
//! behaviour section.
use vstd::prelude::*;
use vstd::string::StringExecFns;

use crate::text::{chars_of, contains_infix, has_infix, replace_all, replace_chars, starts_with, string_from_chars};

verus! {

/// The folder that holds `conf.toml` and `plugins`: the override when one is
/// given, else `$XDG_CONFIG_HOME/lupa`, else `$HOME/.config/lupa`, else `/etc/`.
pub open spec fn spec_config_folder(
    config_path_override: Option<Seq<char>>,
    xdg_config_home: Option<Seq<char>>,
    home: Option<Seq<char>>,
) -> Seq<char> {
    match config_path_override {
        Some(p) => p,
        None => match xdg_config_home {
            Some(x) => x + "/lupa"@,
            None => match home {
                Some(h) => h + "/.config"@ + "/lupa"@,
                None => "/etc/"@,
            },
        },
    }
}

pub open spec fn opt_view(o: Option<String>) -> Option<Seq<char>> {
    match o {
        Some(s) => Some(s@),
        None => None,
    }
}

/// The configuration folder, given the override and the values of
/// `XDG_CONFIG_HOME` and `HOME` (each `None` when unset).
pub fn config_folder(
    config_path_override: Option<String>,
    xdg_config_home: Option<String>,
    home: Option<String>,
) -> (r: String)
    ensures
        r@ == spec_config_folder(
            opt_view(config_path_override),
            opt_view(xdg_config_home),
            opt_view(home),
        ),
{
    if let Some(path) = config_path_override {
        return path;
    }
    match xdg_config_home {
        Some(x) => {
            let mut r = x;
            r.append("/lupa");
            r
        },
        None => match home {
            Some(h) => {
                let mut r = h;
                r.append("/.config");
                r.append("/lupa");
                r
            },
            None => String::from_str("/etc/"),
        },
    }
}

/// Where plugins are looked for: the configuration folder and `/plugins`.
pub fn plugin_path(
    config_path_override: Option<String>,
    xdg_config_home: Option<String>,
    home: Option<String>,
) -> (r: String)
    ensures
        r@ == spec_config_folder(
            opt_view(config_path_override),
            opt_view(xdg_config_home),
            opt_view(home),
        ) + "/plugins"@,
{
    let mut r = config_folder(config_path_override, xdg_config_home, home);
    r.append("/plugins");
    r
}

/// The configuration file: the configuration folder and `/conf.toml`.
pub fn config_path(
    config_path_override: Option<String>,
    xdg_config_home: Option<String>,
    home: Option<String>,
) -> (r: String)
    ensures
        r@ == spec_config_folder(
            opt_view(config_path_override),
            opt_view(xdg_config_home),
            opt_view(home),
        ) + "/conf.toml"@,
{
    let mut r = config_folder(config_path_override, xdg_config_home, home);
    r.append("/conf.toml");
    r
}


/// The folder created for a default configuration file at `path`: the
/// path with every `conf.toml` in it removed.
pub fn default_config_dir(path: &str) -> (r: String)
    ensures
        r@ == replace_all(path@, "conf.toml"@, Seq::empty()),
{
    proof {
        reveal_strlit("conf.toml");
    }
    let empty: Vec<char> = Vec::new();
    string_from_chars(&replace_chars(&chars_of(path), &chars_of("conf.toml"), &empty))
}

proof fn lemma_replace_after(a: Seq<char>, b: Seq<char>, pat: Seq<char>, rep: Seq<char>)
    requires
        pat.len() > 0,
        forall|i: int| 0 <= i < a.len() ==> !starts_with(#[trigger] (a + b).skip(i), pat),
    ensures
        replace_all(a + b, pat, rep) == a + replace_all(b, pat, rep),
    decreases a.len(),
{
    if a.len() == 0 {
        assert(a + b =~= b);
    } else {
        assert((a + b).skip(0) =~= a + b);
        assert((a + b).drop_first() =~= a.drop_first() + b);
        assert forall|i: int| 0 <= i < a.drop_first().len() implies !starts_with(
            #[trigger] (a.drop_first() + b).skip(i),
            pat,
        ) by {
            assert((a.drop_first() + b).skip(i) =~= (a + b).skip(i + 1));
        }
        lemma_replace_after(a.drop_first(), b, pat, rep);
        assert(a + replace_all(b, pat, rep) =~= seq![a[0]] + (a.drop_first() + replace_all(
            b,
            pat,
            rep,
        )));
    }
}

/// Where the configuration folder holds no `conf.toml` in its name, the
/// folder created for a default configuration file at `config_path` is that
/// folder, with a trailing `/`.
pub proof fn law_default_config_dir(
    config_path_override: Option<Seq<char>>,
    xdg_config_home: Option<Seq<char>>,
    home: Option<Seq<char>>,
)
    requires
        !has_infix(
            spec_config_folder(config_path_override, xdg_config_home, home),
            "conf.toml"@,
        ),
    ensures
        replace_all(
            spec_config_folder(config_path_override, xdg_config_home, home) + "/conf.toml"@,
            "conf.toml"@,
            Seq::empty(),
        ) == spec_config_folder(config_path_override, xdg_config_home, home) + "/"@,
{
    let f = spec_config_folder(config_path_override, xdg_config_home, home);
    let pat = "conf.toml"@;
    reveal_strlit("conf.toml");
    reveal_strlit("/conf.toml");
    reveal_strlit("/");
    let a = f + "/"@;
    let b = pat;
    assert(f + "/conf.toml"@ =~= a + b);
    assert forall|i: int| 0 <= i < a.len() implies !starts_with(#[trigger] (a + b).skip(i), pat) by {
        if starts_with((a + b).skip(i), pat) {
            if i + 9 <= f.len() {
                assert(f.subrange(i, i + 9) =~= (a + b).skip(i).take(9));
            } else {
                let k = f.len() - i;
                assert((a + b).skip(i).take(9)[k] == '/');
            }
        }
    }
    lemma_replace_after(a, b, pat, Seq::empty());
    assert(b.take(9) =~= pat);
    assert(starts_with(b, pat));
    assert(b.skip(9).len() == 0);
    assert(replace_all(b, pat, Seq::empty()) =~= Seq::<char>::empty() + replace_all(
        b.skip(9),
        pat,
        Seq::empty(),
    ));
    assert(a + Seq::<char>::empty() =~= a);
}

/// Whether a file named `file_name` makes a folder usable as the
/// configuration folder: its name mentions `conf.toml`.
pub fn names_config_file(file_name: &str) -> (r: bool)
    ensures
        r == has_infix(file_name@, "conf.toml"@),
{
    contains_infix(&chars_of(file_name), &chars_of("conf.toml"))
}

/// The behaviour section of the configuration.
#[derive(Debug, Clone)]
pub struct Behavior {
    pub close_when_unfocused: bool,
    pub max_file_entries: u32,
    pub fallback_providers: String,
}

impl Default for Behavior {
    /// Closes when it loses focus, shows at most 25 files, and falls back
    /// on the system, application, file, emoji and calculator providers.
    fn default() -> (r: Self)
        ensures
            r.close_when_unfocused,
            r.max_file_entries == 25,
            r.fallback_providers@ == "system, app, file, emoji, calc"@,
    {
        Behavior {
            close_when_unfocused: true,
            max_file_entries: 25,
            fallback_providers: String::from_str("system, app, file, emoji, calc"),
        }
    }
}

} // verus!
