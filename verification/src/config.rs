//! Shell configuration: defaults, the `KEY=value` config file, colour
//! names, and overrides from the environment.
use vstd::prelude::*;
use crate::parser::{env_get, EnvV, ShellEnv};
use crate::text::{
    lemma_prefix_while_bound, lemma_prefix_while_unique, lines, not_char, prefix_while,
    split_lines, str_eq, subvec, to_chars, trim, trim_bounds, trim_char, trim_char_exec,
    from_chars, to_lowercase, lowercase,
};

verus! {

pub struct ShellConfig {
    pub prompt_style: String,
    pub color_user: String,
    pub color_host: String,
    pub color_path: String,
    pub color_git: String,
    pub color_exit: String,
    pub show_git: bool,
    pub show_exit_code: bool,
}

pub struct ConfigV {
    pub prompt_style: Seq<char>,
    pub color_user: Seq<char>,
    pub color_host: Seq<char>,
    pub color_path: Seq<char>,
    pub color_git: Seq<char>,
    pub color_exit: Seq<char>,
    pub show_git: bool,
    pub show_exit_code: bool,
}

impl View for ShellConfig {
    type V = ConfigV;

    open spec fn view(&self) -> ConfigV {
        ConfigV {
            prompt_style: self.prompt_style@,
            color_user: self.color_user@,
            color_host: self.color_host@,
            color_path: self.color_path@,
            color_git: self.color_git@,
            color_exit: self.color_exit@,
            show_git: self.show_git,
            show_exit_code: self.show_exit_code,
        }
    }
}

pub open spec fn default_config() -> ConfigV {
    ConfigV {
        prompt_style: "multiline"@,
        color_user: "32"@,
        color_host: "34"@,
        color_path: "33"@,
        color_git: "31"@,
        color_exit: "31"@,
        show_git: true,
        show_exit_code: true,
    }
}

impl Default for ShellConfig {
    fn default() -> (r: Self)
        ensures
            r@ == default_config(),
    {
        ShellConfig {
            prompt_style: String::from_str("multiline"),
            color_user: String::from_str("32"),
            color_host: String::from_str("34"),
            color_path: String::from_str("33"),
            color_git: String::from_str("31"),
            color_exit: String::from_str("31"),
            show_git: true,
            show_exit_code: true,
        }
    }
}

/// The ANSI code for a colour name; codes stand for themselves, anything
/// else is taken as it is.
pub open spec fn color_code_spec(name: Seq<char>) -> Seq<char> {
    if name == "black"@ || name == "30"@ {
        "30"@
    } else if name == "red"@ || name == "31"@ {
        "31"@
    } else if name == "green"@ || name == "32"@ {
        "32"@
    } else if name == "yellow"@ || name == "33"@ {
        "33"@
    } else if name == "blue"@ || name == "34"@ {
        "34"@
    } else if name == "magenta"@ || name == "35"@ {
        "35"@
    } else if name == "cyan"@ || name == "36"@ {
        "36"@
    } else if name == "white"@ || name == "37"@ {
        "37"@
    } else if name == "bred"@ || name == "1;31"@ {
        "1;31"@
    } else if name == "bgreen"@ || name == "1;32"@ {
        "1;32"@
    } else if name == "byellow"@ || name == "1;33"@ {
        "1;33"@
    } else if name == "bblue"@ || name == "1;34"@ {
        "1;34"@
    } else if name == "bmagenta"@ || name == "1;35"@ {
        "1;35"@
    } else if name == "bcyan"@ || name == "1;36"@ {
        "1;36"@
    } else if name == "bwhite"@ || name == "1;37"@ {
        "1;37"@
    } else {
        name
    }
}

fn is_either(name: &str, a: &str, b: &str) -> (r: bool)
    ensures
        r == (name@ == a@ || name@ == b@),
{
    str_eq(name, a) || str_eq(name, b)
}

pub fn color_code(name: &str) -> (r: String)
    ensures
        r@ == color_code_spec(name@),
{
    let code = if is_either(name, "black", "30") {
        "30"
    } else if is_either(name, "red", "31") {
        "31"
    } else if is_either(name, "green", "32") {
        "32"
    } else if is_either(name, "yellow", "33") {
        "33"
    } else if is_either(name, "blue", "34") {
        "34"
    } else if is_either(name, "magenta", "35") {
        "35"
    } else if is_either(name, "cyan", "36") {
        "36"
    } else if is_either(name, "white", "37") {
        "37"
    } else if is_either(name, "bred", "1;31") {
        "1;31"
    } else if is_either(name, "bgreen", "1;32") {
        "1;32"
    } else if is_either(name, "byellow", "1;33") {
        "1;33"
    } else if is_either(name, "bblue", "1;34") {
        "1;34"
    } else if is_either(name, "bmagenta", "1;35") {
        "1;35"
    } else if is_either(name, "bcyan", "1;36") {
        "1;36"
    } else if is_either(name, "bwhite", "1;37") {
        "1;37"
    } else {
        name
    };
    String::from_str(code)
}

/// The `KEY=value` pair on a config line, if it holds one: comments and
/// blank lines hold none; key and value are trimmed, the value also of
/// surrounding `"` and then `'` characters.
pub open spec fn config_line_pair(line: Seq<char>) -> Option<(Seq<char>, Seq<char>)> {
    let l = trim(line);
    if l.len() == 0 || l[0] == '#' {
        None
    } else {
        let k = prefix_while(l, not_char('='));
        if k >= l.len() {
            None
        } else {
            Some(
                (
                    trim(l.take(k as int)),
                    trim_char(trim_char(trim(l.skip(k + 1 as int)), '"'), '\''),
                ),
            )
        }
    }
}

/// The pairs of all lines, in order.
pub open spec fn config_pairs(ls: Seq<Seq<char>>) -> Seq<(Seq<char>, Seq<char>)>
    decreases ls.len(),
{
    if ls.len() == 0 {
        Seq::empty()
    } else {
        let before = config_pairs(ls.drop_last());
        match config_line_pair(ls.last()) {
            Some(p) => before.push(p),
            None => before,
        }
    }
}

/// The value of the last pair with the key (later lines win).
pub open spec fn last_value(pairs: Seq<(Seq<char>, Seq<char>)>, key: Seq<char>) -> Option<Seq<char>>
    decreases pairs.len(),
{
    if pairs.len() == 0 {
        None
    } else if pairs.last().0 == key {
        Some(pairs.last().1)
    } else {
        last_value(pairs.drop_last(), key)
    }
}

pub open spec fn is_yes(v: Seq<char>) -> bool {
    v == "1"@ || v == "yes"@ || v == "true"@
}

pub open spec fn file_color(pairs: Seq<(Seq<char>, Seq<char>)>, key: Seq<char>, dflt: Seq<char>) -> Seq<char> {
    match last_value(pairs, key) {
        Some(v) => color_code_spec(v),
        None => dflt,
    }
}

pub open spec fn file_flag(pairs: Seq<(Seq<char>, Seq<char>)>, key: Seq<char>, dflt: bool) -> bool {
    match last_value(pairs, key) {
        Some(v) => is_yes(v),
        None => dflt,
    }
}

/// Settings from the config file, over the defaults.
pub open spec fn from_file(pairs: Seq<(Seq<char>, Seq<char>)>) -> ConfigV {
    let d = default_config();
    ConfigV {
        prompt_style: match last_value(pairs, "UPD_PROMPT_STYLE"@) {
            Some(v) => lowercase(v),
            None => d.prompt_style,
        },
        color_user: file_color(pairs, "UPD_COLOR_USER"@, d.color_user),
        color_host: file_color(pairs, "UPD_COLOR_HOST"@, d.color_host),
        color_path: file_color(pairs, "UPD_COLOR_PATH"@, d.color_path),
        color_git: file_color(pairs, "UPD_COLOR_GIT"@, d.color_git),
        color_exit: file_color(pairs, "UPD_COLOR_EXIT"@, d.color_exit),
        show_git: file_flag(pairs, "UPD_SHOW_GIT"@, d.show_git),
        show_exit_code: file_flag(pairs, "UPD_SHOW_EXIT_CODE"@, d.show_exit_code),
    }
}

pub open spec fn env_color(env: EnvV, key: Seq<char>, cur: Seq<char>) -> Seq<char> {
    match env_get(env.vars, key) {
        Some(v) => if v.len() > 0 {
            color_code_spec(v)
        } else {
            cur
        },
        None => cur,
    }
}

pub open spec fn env_flag(env: EnvV, key: Seq<char>, cur: bool) -> bool {
    match env_get(env.vars, key) {
        Some(v) => is_yes(v),
        None => cur,
    }
}

/// Environment variables of the same names override the file: colours and
/// style when non-empty, the two switches whenever set.
pub open spec fn apply_env(c: ConfigV, env: EnvV) -> ConfigV {
    ConfigV {
        prompt_style: match env_get(env.vars, "UPD_PROMPT_STYLE"@) {
            Some(v) => if v.len() > 0 {
                lowercase(v)
            } else {
                c.prompt_style
            },
            None => c.prompt_style,
        },
        color_user: env_color(env, "UPD_COLOR_USER"@, c.color_user),
        color_host: env_color(env, "UPD_COLOR_HOST"@, c.color_host),
        color_path: env_color(env, "UPD_COLOR_PATH"@, c.color_path),
        color_git: env_color(env, "UPD_COLOR_GIT"@, c.color_git),
        color_exit: env_color(env, "UPD_COLOR_EXIT"@, c.color_exit),
        show_git: env_flag(env, "UPD_SHOW_GIT"@, c.show_git),
        show_exit_code: env_flag(env, "UPD_SHOW_EXIT_CODE"@, c.show_exit_code),
    }
}

/// The configuration from the config file's text (`None` when it could not
/// be read, which leaves the defaults untouched by the environment too).
pub open spec fn config_spec(content: Option<Seq<char>>, env: EnvV) -> ConfigV {
    match content {
        None => default_config(),
        Some(c) => apply_env(from_file(config_pairs(lines(c))), env),
    }
}

fn line_pair(line: &Vec<char>) -> (r: Option<(Vec<char>, Vec<char>)>)
    ensures
        match r {
            Some(p) => config_line_pair(line@) == Some((p.0@, p.1@)),
            None => config_line_pair(line@) is None,
        },
{
    let (a, b) = trim_bounds(line);
    let l = subvec(line, a, b);
    if l.len() == 0 || l[0] == '#' {
        return None;
    }
    let mut k: usize = 0;
    while k < l.len() && l[k] != '='
        invariant
            k <= l@.len(),
            forall|m: int| 0 <= m < k ==> l@[m] != '=',
        decreases l.len() - k,
    {
        k = k + 1;
    }
    proof {
        assert forall|m: int| 0 <= m < k implies not_char('=')(#[trigger] l@[m]) by {}
        lemma_prefix_while_unique(l@, not_char('='), k as int);
    }
    if k == l.len() {
        return None;
    }
    let key_raw = subvec(&l, 0, k);
    let (ka, kb) = trim_bounds(&key_raw);
    let key = subvec(&key_raw, ka, kb);
    let val_raw = subvec(&l, k + 1, l.len());
    let (va, vb) = trim_bounds(&val_raw);
    let val_t = subvec(&val_raw, va, vb);
    let v1 = trim_char_exec(&val_t, '"');
    let v2 = trim_char_exec(&v1, '\'');
    proof {
        assert(l@.take(k as int) =~= key_raw@);
        assert(l@.skip(k + 1 as int) =~= val_raw@);
    }
    Some((key, v2))
}

fn last_value_exec(pairs: &Vec<(Vec<char>, Vec<char>)>, key: &str) -> (r: Option<Vec<char>>)
    ensures
        match r {
            Some(v) => last_value(pairs@.map_values(|p: (Vec<char>, Vec<char>)| (p.0@, p.1@)), key@)
                == Some(v@),
            None => last_value(pairs@.map_values(|p: (Vec<char>, Vec<char>)| (p.0@, p.1@)), key@) is None,
        },
{
    let ghost pv = pairs@.map_values(|p: (Vec<char>, Vec<char>)| (p.0@, p.1@));
    let k = to_chars(key);
    let mut i: usize = pairs.len();
    assert(pv.take(pv.len() as int) =~= pv);
    while i > 0
        invariant
            i <= pairs@.len(),
            pv == pairs@.map_values(|p: (Vec<char>, Vec<char>)| (p.0@, p.1@)),
            k@ == key@,
            last_value(pv, key@) == last_value(pv.take(i as int), key@),
        decreases i,
    {
        let ghost t = pv.take(i as int);
        assert(t.last() == pv[i - 1]);
        assert(t.drop_last() =~= pv.take(i - 1));
        if crate::text::chars_eq(pairs[i - 1].0.as_slice(), k.as_slice()) {
            let v = subvec(&pairs[i - 1].1, 0, pairs[i - 1].1.len());
            assert(v@ =~= pairs[i - 1].1@);
            return Some(v);
        }
        i = i - 1;
    }
    assert(pv.take(0) =~= Seq::<(Seq<char>, Seq<char>)>::empty());
    None
}

fn is_yes_exec(v: &Vec<char>) -> (r: bool)
    ensures
        r == is_yes(v@),
{
    let s = from_chars(v.as_slice());
    str_eq(s.as_str(), "1") || str_eq(s.as_str(), "yes") || str_eq(s.as_str(), "true")
}

fn file_color_exec(pairs: &Vec<(Vec<char>, Vec<char>)>, key: &str, dflt: String) -> (r: String)
    ensures
        r@ == file_color(
            pairs@.map_values(|p: (Vec<char>, Vec<char>)| (p.0@, p.1@)),
            key@,
            dflt@,
        ),
{
    match last_value_exec(pairs, key) {
        Some(v) => {
            let s = from_chars(v.as_slice());
            color_code(s.as_str())
        },
        None => dflt,
    }
}

fn file_flag_exec(pairs: &Vec<(Vec<char>, Vec<char>)>, key: &str, dflt: bool) -> (r: bool)
    ensures
        r == file_flag(pairs@.map_values(|p: (Vec<char>, Vec<char>)| (p.0@, p.1@)), key@, dflt),
{
    match last_value_exec(pairs, key) {
        Some(v) => is_yes_exec(&v),
        None => dflt,
    }
}

fn env_color_exec(env: &ShellEnv, key: &str, cur: String) -> (r: String)
    ensures
        r@ == env_color(env@, key@, cur@),
{
    match env.lookup_str(key) {
        Some(v) => {
            if v.len() > 0 {
                let s = from_chars(v.as_slice());
                color_code(s.as_str())
            } else {
                cur
            }
        },
        None => cur,
    }
}

fn env_flag_exec(env: &ShellEnv, key: &str, cur: bool) -> (r: bool)
    ensures
        r == env_flag(env@, key@, cur),
{
    match env.lookup_str(key) {
        Some(v) => is_yes_exec(&v),
        None => cur,
    }
}

/// The configuration given the config file's text (`None` when it could
/// not be read) and the environment.
pub fn config_from(content: Option<&str>, env: &ShellEnv) -> (r: ShellConfig)
    ensures
        r@ == config_spec(
            match content {
                Some(c) => Some(c@),
                None => None,
            },
            env@,
        ),
{
    let cfg = ShellConfig::default();
    let text = match content {
        None => {
            return cfg;
        },
        Some(c) => c,
    };
    let chars = to_chars(text);
    let ls = split_lines(&chars);
    let mut pairs: Vec<(Vec<char>, Vec<char>)> = Vec::new();
    let ghost lv = lines(chars@);
    let mut i: usize = 0;
    assert(lv.take(0) =~= Seq::<Seq<char>>::empty());
    assert(pairs@.map_values(|p: (Vec<char>, Vec<char>)| (p.0@, p.1@)) =~= Seq::<
        (Seq<char>, Seq<char>),
    >::empty());
    while i < ls.len()
        invariant
            i <= ls@.len(),
            ls@.len() == lv.len(),
            forall|m: int| 0 <= m < ls@.len() ==> #[trigger] ls@[m]@ == lv[m],
            pairs@.map_values(|p: (Vec<char>, Vec<char>)| (p.0@, p.1@)) == config_pairs(
                lv.take(i as int),
            ),
        decreases ls.len() - i,
    {
        assert(lv.take(i + 1).drop_last() =~= lv.take(i as int));
        assert(lv.take(i + 1).last() == ls@[i as int]@);
        let ghost before = pairs@.map_values(|p: (Vec<char>, Vec<char>)| (p.0@, p.1@));
        match line_pair(&ls[i]) {
            Some(p) => {
                pairs.push(p);
                assert(pairs@.map_values(|p: (Vec<char>, Vec<char>)| (p.0@, p.1@)) =~= before.push(
                    config_line_pair(ls@[i as int]@)->0,
                ));
            },
            None => {},
        }
        i = i + 1;
    }
    assert(lv.take(i as int) =~= lv);
    let style = match last_value_exec(&pairs, "UPD_PROMPT_STYLE") {
        Some(v) => {
            let s = from_chars(v.as_slice());
            to_lowercase(s.as_str())
        },
        None => cfg.prompt_style,
    };
    let color_user = file_color_exec(&pairs, "UPD_COLOR_USER", cfg.color_user);
    let color_host = file_color_exec(&pairs, "UPD_COLOR_HOST", cfg.color_host);
    let color_path = file_color_exec(&pairs, "UPD_COLOR_PATH", cfg.color_path);
    let color_git = file_color_exec(&pairs, "UPD_COLOR_GIT", cfg.color_git);
    let color_exit = file_color_exec(&pairs, "UPD_COLOR_EXIT", cfg.color_exit);
    let show_git = file_flag_exec(&pairs, "UPD_SHOW_GIT", cfg.show_git);
    let show_exit_code = file_flag_exec(&pairs, "UPD_SHOW_EXIT_CODE", cfg.show_exit_code);
    let style = match env.lookup_str("UPD_PROMPT_STYLE") {
        Some(v) => {
            if v.len() > 0 {
                let s = from_chars(v.as_slice());
                to_lowercase(s.as_str())
            } else {
                style
            }
        },
        None => style,
    };
    ShellConfig {
        prompt_style: style,
        color_user: env_color_exec(env, "UPD_COLOR_USER", color_user),
        color_host: env_color_exec(env, "UPD_COLOR_HOST", color_host),
        color_path: env_color_exec(env, "UPD_COLOR_PATH", color_path),
        color_git: env_color_exec(env, "UPD_COLOR_GIT", color_git),
        color_exit: env_color_exec(env, "UPD_COLOR_EXIT", color_exit),
        show_git: env_flag_exec(env, "UPD_SHOW_GIT", show_git),
        show_exit_code: env_flag_exec(env, "UPD_SHOW_EXIT_CODE", show_exit_code),
    }
}

/// Looking up a colour code twice gives what looking it up once gives.
pub proof fn lemma_color_code_idempotent(name: Seq<char>)
    ensures
        color_code_spec(color_code_spec(name)) == color_code_spec(name),
{
    assert(color_code_spec("30"@) == "30"@) by {
        reveal_strlit("30");
        reveal_strlit("black");
        assert("30"@.len() != "black"@.len());
    }
    assert(color_code_spec("31"@) == "31"@) by {
        reveal_strlit("31");
        reveal_strlit("black");
        assert("31"@.len() != "black"@.len());
        reveal_strlit("31");
        reveal_strlit("30");
        assert("31"@[1] != "30"@[1]);
        reveal_strlit("31");
        reveal_strlit("red");
        assert("31"@.len() != "red"@.len());
    }
    assert(color_code_spec("32"@) == "32"@) by {
        reveal_strlit("32");
        reveal_strlit("black");
        assert("32"@.len() != "black"@.len());
        reveal_strlit("32");
        reveal_strlit("30");
        assert("32"@[1] != "30"@[1]);
        reveal_strlit("32");
        reveal_strlit("red");
        assert("32"@.len() != "red"@.len());
        reveal_strlit("32");
        reveal_strlit("31");
        assert("32"@[1] != "31"@[1]);
        reveal_strlit("32");
        reveal_strlit("green");
        assert("32"@.len() != "green"@.len());
    }
    assert(color_code_spec("33"@) == "33"@) by {
        reveal_strlit("33");
        reveal_strlit("black");
        assert("33"@.len() != "black"@.len());
        reveal_strlit("33");
        reveal_strlit("30");
        assert("33"@[1] != "30"@[1]);
        reveal_strlit("33");
        reveal_strlit("red");
        assert("33"@.len() != "red"@.len());
        reveal_strlit("33");
        reveal_strlit("31");
        assert("33"@[1] != "31"@[1]);
        reveal_strlit("33");
        reveal_strlit("green");
        assert("33"@.len() != "green"@.len());
        reveal_strlit("33");
        reveal_strlit("32");
        assert("33"@[1] != "32"@[1]);
        reveal_strlit("33");
        reveal_strlit("yellow");
        assert("33"@.len() != "yellow"@.len());
    }
    assert(color_code_spec("34"@) == "34"@) by {
        reveal_strlit("34");
        reveal_strlit("black");
        assert("34"@.len() != "black"@.len());
        reveal_strlit("34");
        reveal_strlit("30");
        assert("34"@[1] != "30"@[1]);
        reveal_strlit("34");
        reveal_strlit("red");
        assert("34"@.len() != "red"@.len());
        reveal_strlit("34");
        reveal_strlit("31");
        assert("34"@[1] != "31"@[1]);
        reveal_strlit("34");
        reveal_strlit("green");
        assert("34"@.len() != "green"@.len());
        reveal_strlit("34");
        reveal_strlit("32");
        assert("34"@[1] != "32"@[1]);
        reveal_strlit("34");
        reveal_strlit("yellow");
        assert("34"@.len() != "yellow"@.len());
        reveal_strlit("34");
        reveal_strlit("33");
        assert("34"@[1] != "33"@[1]);
        reveal_strlit("34");
        reveal_strlit("blue");
        assert("34"@.len() != "blue"@.len());
    }
    assert(color_code_spec("35"@) == "35"@) by {
        reveal_strlit("35");
        reveal_strlit("black");
        assert("35"@.len() != "black"@.len());
        reveal_strlit("35");
        reveal_strlit("30");
        assert("35"@[1] != "30"@[1]);
        reveal_strlit("35");
        reveal_strlit("red");
        assert("35"@.len() != "red"@.len());
        reveal_strlit("35");
        reveal_strlit("31");
        assert("35"@[1] != "31"@[1]);
        reveal_strlit("35");
        reveal_strlit("green");
        assert("35"@.len() != "green"@.len());
        reveal_strlit("35");
        reveal_strlit("32");
        assert("35"@[1] != "32"@[1]);
        reveal_strlit("35");
        reveal_strlit("yellow");
        assert("35"@.len() != "yellow"@.len());
        reveal_strlit("35");
        reveal_strlit("33");
        assert("35"@[1] != "33"@[1]);
        reveal_strlit("35");
        reveal_strlit("blue");
        assert("35"@.len() != "blue"@.len());
        reveal_strlit("35");
        reveal_strlit("34");
        assert("35"@[1] != "34"@[1]);
        reveal_strlit("35");
        reveal_strlit("magenta");
        assert("35"@.len() != "magenta"@.len());
    }
    assert(color_code_spec("36"@) == "36"@) by {
        reveal_strlit("36");
        reveal_strlit("black");
        assert("36"@.len() != "black"@.len());
        reveal_strlit("36");
        reveal_strlit("30");
        assert("36"@[1] != "30"@[1]);
        reveal_strlit("36");
        reveal_strlit("red");
        assert("36"@.len() != "red"@.len());
        reveal_strlit("36");
        reveal_strlit("31");
        assert("36"@[1] != "31"@[1]);
        reveal_strlit("36");
        reveal_strlit("green");
        assert("36"@.len() != "green"@.len());
        reveal_strlit("36");
        reveal_strlit("32");
        assert("36"@[1] != "32"@[1]);
        reveal_strlit("36");
        reveal_strlit("yellow");
        assert("36"@.len() != "yellow"@.len());
        reveal_strlit("36");
        reveal_strlit("33");
        assert("36"@[1] != "33"@[1]);
        reveal_strlit("36");
        reveal_strlit("blue");
        assert("36"@.len() != "blue"@.len());
        reveal_strlit("36");
        reveal_strlit("34");
        assert("36"@[1] != "34"@[1]);
        reveal_strlit("36");
        reveal_strlit("magenta");
        assert("36"@.len() != "magenta"@.len());
        reveal_strlit("36");
        reveal_strlit("35");
        assert("36"@[1] != "35"@[1]);
        reveal_strlit("36");
        reveal_strlit("cyan");
        assert("36"@.len() != "cyan"@.len());
    }
    assert(color_code_spec("37"@) == "37"@) by {
        reveal_strlit("37");
        reveal_strlit("black");
        assert("37"@.len() != "black"@.len());
        reveal_strlit("37");
        reveal_strlit("30");
        assert("37"@[1] != "30"@[1]);
        reveal_strlit("37");
        reveal_strlit("red");
        assert("37"@.len() != "red"@.len());
        reveal_strlit("37");
        reveal_strlit("31");
        assert("37"@[1] != "31"@[1]);
        reveal_strlit("37");
        reveal_strlit("green");
        assert("37"@.len() != "green"@.len());
        reveal_strlit("37");
        reveal_strlit("32");
        assert("37"@[1] != "32"@[1]);
        reveal_strlit("37");
        reveal_strlit("yellow");
        assert("37"@.len() != "yellow"@.len());
        reveal_strlit("37");
        reveal_strlit("33");
        assert("37"@[1] != "33"@[1]);
        reveal_strlit("37");
        reveal_strlit("blue");
        assert("37"@.len() != "blue"@.len());
        reveal_strlit("37");
        reveal_strlit("34");
        assert("37"@[1] != "34"@[1]);
        reveal_strlit("37");
        reveal_strlit("magenta");
        assert("37"@.len() != "magenta"@.len());
        reveal_strlit("37");
        reveal_strlit("35");
        assert("37"@[1] != "35"@[1]);
        reveal_strlit("37");
        reveal_strlit("cyan");
        assert("37"@.len() != "cyan"@.len());
        reveal_strlit("37");
        reveal_strlit("36");
        assert("37"@[1] != "36"@[1]);
        reveal_strlit("37");
        reveal_strlit("white");
        assert("37"@.len() != "white"@.len());
    }
    assert(color_code_spec("1;31"@) == "1;31"@) by {
        reveal_strlit("1;31");
        reveal_strlit("black");
        assert("1;31"@.len() != "black"@.len());
        reveal_strlit("1;31");
        reveal_strlit("30");
        assert("1;31"@.len() != "30"@.len());
        reveal_strlit("1;31");
        reveal_strlit("red");
        assert("1;31"@.len() != "red"@.len());
        reveal_strlit("1;31");
        reveal_strlit("31");
        assert("1;31"@.len() != "31"@.len());
        reveal_strlit("1;31");
        reveal_strlit("green");
        assert("1;31"@.len() != "green"@.len());
        reveal_strlit("1;31");
        reveal_strlit("32");
        assert("1;31"@.len() != "32"@.len());
        reveal_strlit("1;31");
        reveal_strlit("yellow");
        assert("1;31"@.len() != "yellow"@.len());
        reveal_strlit("1;31");
        reveal_strlit("33");
        assert("1;31"@.len() != "33"@.len());
        reveal_strlit("1;31");
        reveal_strlit("blue");
        assert("1;31"@[0] != "blue"@[0]);
        reveal_strlit("1;31");
        reveal_strlit("34");
        assert("1;31"@.len() != "34"@.len());
        reveal_strlit("1;31");
        reveal_strlit("magenta");
        assert("1;31"@.len() != "magenta"@.len());
        reveal_strlit("1;31");
        reveal_strlit("35");
        assert("1;31"@.len() != "35"@.len());
        reveal_strlit("1;31");
        reveal_strlit("cyan");
        assert("1;31"@[0] != "cyan"@[0]);
        reveal_strlit("1;31");
        reveal_strlit("36");
        assert("1;31"@.len() != "36"@.len());
        reveal_strlit("1;31");
        reveal_strlit("white");
        assert("1;31"@.len() != "white"@.len());
        reveal_strlit("1;31");
        reveal_strlit("37");
        assert("1;31"@.len() != "37"@.len());
        reveal_strlit("1;31");
        reveal_strlit("bred");
        assert("1;31"@[0] != "bred"@[0]);
    }
    assert(color_code_spec("1;32"@) == "1;32"@) by {
        reveal_strlit("1;32");
        reveal_strlit("black");
        assert("1;32"@.len() != "black"@.len());
        reveal_strlit("1;32");
        reveal_strlit("30");
        assert("1;32"@.len() != "30"@.len());
        reveal_strlit("1;32");
        reveal_strlit("red");
        assert("1;32"@.len() != "red"@.len());
        reveal_strlit("1;32");
        reveal_strlit("31");
        assert("1;32"@.len() != "31"@.len());
        reveal_strlit("1;32");
        reveal_strlit("green");
        assert("1;32"@.len() != "green"@.len());
        reveal_strlit("1;32");
        reveal_strlit("32");
        assert("1;32"@.len() != "32"@.len());
        reveal_strlit("1;32");
        reveal_strlit("yellow");
        assert("1;32"@.len() != "yellow"@.len());
        reveal_strlit("1;32");
        reveal_strlit("33");
        assert("1;32"@.len() != "33"@.len());
        reveal_strlit("1;32");
        reveal_strlit("blue");
        assert("1;32"@[0] != "blue"@[0]);
        reveal_strlit("1;32");
        reveal_strlit("34");
        assert("1;32"@.len() != "34"@.len());
        reveal_strlit("1;32");
        reveal_strlit("magenta");
        assert("1;32"@.len() != "magenta"@.len());
        reveal_strlit("1;32");
        reveal_strlit("35");
        assert("1;32"@.len() != "35"@.len());
        reveal_strlit("1;32");
        reveal_strlit("cyan");
        assert("1;32"@[0] != "cyan"@[0]);
        reveal_strlit("1;32");
        reveal_strlit("36");
        assert("1;32"@.len() != "36"@.len());
        reveal_strlit("1;32");
        reveal_strlit("white");
        assert("1;32"@.len() != "white"@.len());
        reveal_strlit("1;32");
        reveal_strlit("37");
        assert("1;32"@.len() != "37"@.len());
        reveal_strlit("1;32");
        reveal_strlit("bred");
        assert("1;32"@[0] != "bred"@[0]);
        reveal_strlit("1;32");
        reveal_strlit("1;31");
        assert("1;32"@[3] != "1;31"@[3]);
        reveal_strlit("1;32");
        reveal_strlit("bgreen");
        assert("1;32"@.len() != "bgreen"@.len());
    }
    assert(color_code_spec("1;33"@) == "1;33"@) by {
        reveal_strlit("1;33");
        reveal_strlit("black");
        assert("1;33"@.len() != "black"@.len());
        reveal_strlit("1;33");
        reveal_strlit("30");
        assert("1;33"@.len() != "30"@.len());
        reveal_strlit("1;33");
        reveal_strlit("red");
        assert("1;33"@.len() != "red"@.len());
        reveal_strlit("1;33");
        reveal_strlit("31");
        assert("1;33"@.len() != "31"@.len());
        reveal_strlit("1;33");
        reveal_strlit("green");
        assert("1;33"@.len() != "green"@.len());
        reveal_strlit("1;33");
        reveal_strlit("32");
        assert("1;33"@.len() != "32"@.len());
        reveal_strlit("1;33");
        reveal_strlit("yellow");
        assert("1;33"@.len() != "yellow"@.len());
        reveal_strlit("1;33");
        reveal_strlit("33");
        assert("1;33"@.len() != "33"@.len());
        reveal_strlit("1;33");
        reveal_strlit("blue");
        assert("1;33"@[0] != "blue"@[0]);
        reveal_strlit("1;33");
        reveal_strlit("34");
        assert("1;33"@.len() != "34"@.len());
        reveal_strlit("1;33");
        reveal_strlit("magenta");
        assert("1;33"@.len() != "magenta"@.len());
        reveal_strlit("1;33");
        reveal_strlit("35");
        assert("1;33"@.len() != "35"@.len());
        reveal_strlit("1;33");
        reveal_strlit("cyan");
        assert("1;33"@[0] != "cyan"@[0]);
        reveal_strlit("1;33");
        reveal_strlit("36");
        assert("1;33"@.len() != "36"@.len());
        reveal_strlit("1;33");
        reveal_strlit("white");
        assert("1;33"@.len() != "white"@.len());
        reveal_strlit("1;33");
        reveal_strlit("37");
        assert("1;33"@.len() != "37"@.len());
        reveal_strlit("1;33");
        reveal_strlit("bred");
        assert("1;33"@[0] != "bred"@[0]);
        reveal_strlit("1;33");
        reveal_strlit("1;31");
        assert("1;33"@[3] != "1;31"@[3]);
        reveal_strlit("1;33");
        reveal_strlit("bgreen");
        assert("1;33"@.len() != "bgreen"@.len());
        reveal_strlit("1;33");
        reveal_strlit("1;32");
        assert("1;33"@[3] != "1;32"@[3]);
        reveal_strlit("1;33");
        reveal_strlit("byellow");
        assert("1;33"@.len() != "byellow"@.len());
    }
    assert(color_code_spec("1;34"@) == "1;34"@) by {
        reveal_strlit("1;34");
        reveal_strlit("black");
        assert("1;34"@.len() != "black"@.len());
        reveal_strlit("1;34");
        reveal_strlit("30");
        assert("1;34"@.len() != "30"@.len());
        reveal_strlit("1;34");
        reveal_strlit("red");
        assert("1;34"@.len() != "red"@.len());
        reveal_strlit("1;34");
        reveal_strlit("31");
        assert("1;34"@.len() != "31"@.len());
        reveal_strlit("1;34");
        reveal_strlit("green");
        assert("1;34"@.len() != "green"@.len());
        reveal_strlit("1;34");
        reveal_strlit("32");
        assert("1;34"@.len() != "32"@.len());
        reveal_strlit("1;34");
        reveal_strlit("yellow");
        assert("1;34"@.len() != "yellow"@.len());
        reveal_strlit("1;34");
        reveal_strlit("33");
        assert("1;34"@.len() != "33"@.len());
        reveal_strlit("1;34");
        reveal_strlit("blue");
        assert("1;34"@[0] != "blue"@[0]);
        reveal_strlit("1;34");
        reveal_strlit("34");
        assert("1;34"@.len() != "34"@.len());
        reveal_strlit("1;34");
        reveal_strlit("magenta");
        assert("1;34"@.len() != "magenta"@.len());
        reveal_strlit("1;34");
        reveal_strlit("35");
        assert("1;34"@.len() != "35"@.len());
        reveal_strlit("1;34");
        reveal_strlit("cyan");
        assert("1;34"@[0] != "cyan"@[0]);
        reveal_strlit("1;34");
        reveal_strlit("36");
        assert("1;34"@.len() != "36"@.len());
        reveal_strlit("1;34");
        reveal_strlit("white");
        assert("1;34"@.len() != "white"@.len());
        reveal_strlit("1;34");
        reveal_strlit("37");
        assert("1;34"@.len() != "37"@.len());
        reveal_strlit("1;34");
        reveal_strlit("bred");
        assert("1;34"@[0] != "bred"@[0]);
        reveal_strlit("1;34");
        reveal_strlit("1;31");
        assert("1;34"@[3] != "1;31"@[3]);
        reveal_strlit("1;34");
        reveal_strlit("bgreen");
        assert("1;34"@.len() != "bgreen"@.len());
        reveal_strlit("1;34");
        reveal_strlit("1;32");
        assert("1;34"@[3] != "1;32"@[3]);
        reveal_strlit("1;34");
        reveal_strlit("byellow");
        assert("1;34"@.len() != "byellow"@.len());
        reveal_strlit("1;34");
        reveal_strlit("1;33");
        assert("1;34"@[3] != "1;33"@[3]);
        reveal_strlit("1;34");
        reveal_strlit("bblue");
        assert("1;34"@.len() != "bblue"@.len());
    }
    assert(color_code_spec("1;35"@) == "1;35"@) by {
        reveal_strlit("1;35");
        reveal_strlit("black");
        assert("1;35"@.len() != "black"@.len());
        reveal_strlit("1;35");
        reveal_strlit("30");
        assert("1;35"@.len() != "30"@.len());
        reveal_strlit("1;35");
        reveal_strlit("red");
        assert("1;35"@.len() != "red"@.len());
        reveal_strlit("1;35");
        reveal_strlit("31");
        assert("1;35"@.len() != "31"@.len());
        reveal_strlit("1;35");
        reveal_strlit("green");
        assert("1;35"@.len() != "green"@.len());
        reveal_strlit("1;35");
        reveal_strlit("32");
        assert("1;35"@.len() != "32"@.len());
        reveal_strlit("1;35");
        reveal_strlit("yellow");
        assert("1;35"@.len() != "yellow"@.len());
        reveal_strlit("1;35");
        reveal_strlit("33");
        assert("1;35"@.len() != "33"@.len());
        reveal_strlit("1;35");
        reveal_strlit("blue");
        assert("1;35"@[0] != "blue"@[0]);
        reveal_strlit("1;35");
        reveal_strlit("34");
        assert("1;35"@.len() != "34"@.len());
        reveal_strlit("1;35");
        reveal_strlit("magenta");
        assert("1;35"@.len() != "magenta"@.len());
        reveal_strlit("1;35");
        reveal_strlit("35");
        assert("1;35"@.len() != "35"@.len());
        reveal_strlit("1;35");
        reveal_strlit("cyan");
        assert("1;35"@[0] != "cyan"@[0]);
        reveal_strlit("1;35");
        reveal_strlit("36");
        assert("1;35"@.len() != "36"@.len());
        reveal_strlit("1;35");
        reveal_strlit("white");
        assert("1;35"@.len() != "white"@.len());
        reveal_strlit("1;35");
        reveal_strlit("37");
        assert("1;35"@.len() != "37"@.len());
        reveal_strlit("1;35");
        reveal_strlit("bred");
        assert("1;35"@[0] != "bred"@[0]);
        reveal_strlit("1;35");
        reveal_strlit("1;31");
        assert("1;35"@[3] != "1;31"@[3]);
        reveal_strlit("1;35");
        reveal_strlit("bgreen");
        assert("1;35"@.len() != "bgreen"@.len());
        reveal_strlit("1;35");
        reveal_strlit("1;32");
        assert("1;35"@[3] != "1;32"@[3]);
        reveal_strlit("1;35");
        reveal_strlit("byellow");
        assert("1;35"@.len() != "byellow"@.len());
        reveal_strlit("1;35");
        reveal_strlit("1;33");
        assert("1;35"@[3] != "1;33"@[3]);
        reveal_strlit("1;35");
        reveal_strlit("bblue");
        assert("1;35"@.len() != "bblue"@.len());
        reveal_strlit("1;35");
        reveal_strlit("1;34");
        assert("1;35"@[3] != "1;34"@[3]);
        reveal_strlit("1;35");
        reveal_strlit("bmagenta");
        assert("1;35"@.len() != "bmagenta"@.len());
    }
    assert(color_code_spec("1;36"@) == "1;36"@) by {
        reveal_strlit("1;36");
        reveal_strlit("black");
        assert("1;36"@.len() != "black"@.len());
        reveal_strlit("1;36");
        reveal_strlit("30");
        assert("1;36"@.len() != "30"@.len());
        reveal_strlit("1;36");
        reveal_strlit("red");
        assert("1;36"@.len() != "red"@.len());
        reveal_strlit("1;36");
        reveal_strlit("31");
        assert("1;36"@.len() != "31"@.len());
        reveal_strlit("1;36");
        reveal_strlit("green");
        assert("1;36"@.len() != "green"@.len());
        reveal_strlit("1;36");
        reveal_strlit("32");
        assert("1;36"@.len() != "32"@.len());
        reveal_strlit("1;36");
        reveal_strlit("yellow");
        assert("1;36"@.len() != "yellow"@.len());
        reveal_strlit("1;36");
        reveal_strlit("33");
        assert("1;36"@.len() != "33"@.len());
        reveal_strlit("1;36");
        reveal_strlit("blue");
        assert("1;36"@[0] != "blue"@[0]);
        reveal_strlit("1;36");
        reveal_strlit("34");
        assert("1;36"@.len() != "34"@.len());
        reveal_strlit("1;36");
        reveal_strlit("magenta");
        assert("1;36"@.len() != "magenta"@.len());
        reveal_strlit("1;36");
        reveal_strlit("35");
        assert("1;36"@.len() != "35"@.len());
        reveal_strlit("1;36");
        reveal_strlit("cyan");
        assert("1;36"@[0] != "cyan"@[0]);
        reveal_strlit("1;36");
        reveal_strlit("36");
        assert("1;36"@.len() != "36"@.len());
        reveal_strlit("1;36");
        reveal_strlit("white");
        assert("1;36"@.len() != "white"@.len());
        reveal_strlit("1;36");
        reveal_strlit("37");
        assert("1;36"@.len() != "37"@.len());
        reveal_strlit("1;36");
        reveal_strlit("bred");
        assert("1;36"@[0] != "bred"@[0]);
        reveal_strlit("1;36");
        reveal_strlit("1;31");
        assert("1;36"@[3] != "1;31"@[3]);
        reveal_strlit("1;36");
        reveal_strlit("bgreen");
        assert("1;36"@.len() != "bgreen"@.len());
        reveal_strlit("1;36");
        reveal_strlit("1;32");
        assert("1;36"@[3] != "1;32"@[3]);
        reveal_strlit("1;36");
        reveal_strlit("byellow");
        assert("1;36"@.len() != "byellow"@.len());
        reveal_strlit("1;36");
        reveal_strlit("1;33");
        assert("1;36"@[3] != "1;33"@[3]);
        reveal_strlit("1;36");
        reveal_strlit("bblue");
        assert("1;36"@.len() != "bblue"@.len());
        reveal_strlit("1;36");
        reveal_strlit("1;34");
        assert("1;36"@[3] != "1;34"@[3]);
        reveal_strlit("1;36");
        reveal_strlit("bmagenta");
        assert("1;36"@.len() != "bmagenta"@.len());
        reveal_strlit("1;36");
        reveal_strlit("1;35");
        assert("1;36"@[3] != "1;35"@[3]);
        reveal_strlit("1;36");
        reveal_strlit("bcyan");
        assert("1;36"@.len() != "bcyan"@.len());
    }
    assert(color_code_spec("1;37"@) == "1;37"@) by {
        reveal_strlit("1;37");
        reveal_strlit("black");
        assert("1;37"@.len() != "black"@.len());
        reveal_strlit("1;37");
        reveal_strlit("30");
        assert("1;37"@.len() != "30"@.len());
        reveal_strlit("1;37");
        reveal_strlit("red");
        assert("1;37"@.len() != "red"@.len());
        reveal_strlit("1;37");
        reveal_strlit("31");
        assert("1;37"@.len() != "31"@.len());
        reveal_strlit("1;37");
        reveal_strlit("green");
        assert("1;37"@.len() != "green"@.len());
        reveal_strlit("1;37");
        reveal_strlit("32");
        assert("1;37"@.len() != "32"@.len());
        reveal_strlit("1;37");
        reveal_strlit("yellow");
        assert("1;37"@.len() != "yellow"@.len());
        reveal_strlit("1;37");
        reveal_strlit("33");
        assert("1;37"@.len() != "33"@.len());
        reveal_strlit("1;37");
        reveal_strlit("blue");
        assert("1;37"@[0] != "blue"@[0]);
        reveal_strlit("1;37");
        reveal_strlit("34");
        assert("1;37"@.len() != "34"@.len());
        reveal_strlit("1;37");
        reveal_strlit("magenta");
        assert("1;37"@.len() != "magenta"@.len());
        reveal_strlit("1;37");
        reveal_strlit("35");
        assert("1;37"@.len() != "35"@.len());
        reveal_strlit("1;37");
        reveal_strlit("cyan");
        assert("1;37"@[0] != "cyan"@[0]);
        reveal_strlit("1;37");
        reveal_strlit("36");
        assert("1;37"@.len() != "36"@.len());
        reveal_strlit("1;37");
        reveal_strlit("white");
        assert("1;37"@.len() != "white"@.len());
        reveal_strlit("1;37");
        reveal_strlit("37");
        assert("1;37"@.len() != "37"@.len());
        reveal_strlit("1;37");
        reveal_strlit("bred");
        assert("1;37"@[0] != "bred"@[0]);
        reveal_strlit("1;37");
        reveal_strlit("1;31");
        assert("1;37"@[3] != "1;31"@[3]);
        reveal_strlit("1;37");
        reveal_strlit("bgreen");
        assert("1;37"@.len() != "bgreen"@.len());
        reveal_strlit("1;37");
        reveal_strlit("1;32");
        assert("1;37"@[3] != "1;32"@[3]);
        reveal_strlit("1;37");
        reveal_strlit("byellow");
        assert("1;37"@.len() != "byellow"@.len());
        reveal_strlit("1;37");
        reveal_strlit("1;33");
        assert("1;37"@[3] != "1;33"@[3]);
        reveal_strlit("1;37");
        reveal_strlit("bblue");
        assert("1;37"@.len() != "bblue"@.len());
        reveal_strlit("1;37");
        reveal_strlit("1;34");
        assert("1;37"@[3] != "1;34"@[3]);
        reveal_strlit("1;37");
        reveal_strlit("bmagenta");
        assert("1;37"@.len() != "bmagenta"@.len());
        reveal_strlit("1;37");
        reveal_strlit("1;35");
        assert("1;37"@[3] != "1;35"@[3]);
        reveal_strlit("1;37");
        reveal_strlit("bcyan");
        assert("1;37"@.len() != "bcyan"@.len());
        reveal_strlit("1;37");
        reveal_strlit("1;36");
        assert("1;37"@[3] != "1;36"@[3]);
        reveal_strlit("1;37");
        reveal_strlit("bwhite");
        assert("1;37"@.len() != "bwhite"@.len());
    }
}

/// Without a readable config file the defaults hold, whatever the
/// environment says.
pub proof fn lemma_config_unreadable_is_default(env: EnvV)
    ensures
        config_spec(None, env) == default_config(),
{
}

/// The two switches, showing the git branch and showing the exit code,
/// are on exactly for the words `1`, `yes` and `true`, and off for any
/// other value: the value set in the environment when there is one, else
/// the value of the file's last line for the switch, else on.
pub proof fn lemma_config_switches(content: Seq<char>, env: EnvV)
    ensures
        ({
            let c = config_spec(Some(content), env);
            let pairs = config_pairs(lines(content));
            &&& env_get(env.vars, "UPD_SHOW_GIT"@) matches Some(v) ==> c.show_git == (v == "1"@ || v
                == "yes"@ || v == "true"@)
            &&& env_get(env.vars, "UPD_SHOW_GIT"@) is None ==> (last_value(pairs, "UPD_SHOW_GIT"@) matches Some(
                v,
            ) ==> c.show_git == (v == "1"@ || v == "yes"@ || v == "true"@))
            &&& env_get(env.vars, "UPD_SHOW_GIT"@) is None && last_value(pairs, "UPD_SHOW_GIT"@) is None
                ==> c.show_git
            &&& env_get(env.vars, "UPD_SHOW_EXIT_CODE"@) matches Some(v) ==> c.show_exit_code == (v == "1"@ || v
                == "yes"@ || v == "true"@)
            &&& env_get(env.vars, "UPD_SHOW_EXIT_CODE"@) is None ==> (last_value(pairs, "UPD_SHOW_EXIT_CODE"@) matches Some(
                v,
            ) ==> c.show_exit_code == (v == "1"@ || v == "yes"@ || v == "true"@))
            &&& env_get(env.vars, "UPD_SHOW_EXIT_CODE"@) is None && last_value(pairs, "UPD_SHOW_EXIT_CODE"@) is None
                ==> c.show_exit_code
        }),
{
}

/// Each colour is the code of the colour set in the environment when that
/// is not empty, else of the file's last line for it, else its default;
/// the prompt style likewise, in lower case, defaulting to `multiline`.
pub proof fn lemma_config_colours(content: Seq<char>, env: EnvV)
    ensures
        ({
            let c = config_spec(Some(content), env);
            let pairs = config_pairs(lines(content));
            &&& c.color_user == (match env_get(env.vars, "UPD_COLOR_USER"@) {
                Some(v) if v.len() > 0 => color_code_spec(v),
                _ => match last_value(pairs, "UPD_COLOR_USER"@) {
                    Some(v) => color_code_spec(v),
                    None => "32"@,
                },
            })
            &&& c.color_host == (match env_get(env.vars, "UPD_COLOR_HOST"@) {
                Some(v) if v.len() > 0 => color_code_spec(v),
                _ => match last_value(pairs, "UPD_COLOR_HOST"@) {
                    Some(v) => color_code_spec(v),
                    None => "34"@,
                },
            })
            &&& c.color_path == (match env_get(env.vars, "UPD_COLOR_PATH"@) {
                Some(v) if v.len() > 0 => color_code_spec(v),
                _ => match last_value(pairs, "UPD_COLOR_PATH"@) {
                    Some(v) => color_code_spec(v),
                    None => "33"@,
                },
            })
            &&& c.color_git == (match env_get(env.vars, "UPD_COLOR_GIT"@) {
                Some(v) if v.len() > 0 => color_code_spec(v),
                _ => match last_value(pairs, "UPD_COLOR_GIT"@) {
                    Some(v) => color_code_spec(v),
                    None => "31"@,
                },
            })
            &&& c.color_exit == (match env_get(env.vars, "UPD_COLOR_EXIT"@) {
                Some(v) if v.len() > 0 => color_code_spec(v),
                _ => match last_value(pairs, "UPD_COLOR_EXIT"@) {
                    Some(v) => color_code_spec(v),
                    None => "31"@,
                },
            })
            &&& c.prompt_style == (match env_get(env.vars, "UPD_PROMPT_STYLE"@) {
                Some(v) if v.len() > 0 => lowercase(v),
                _ => match last_value(pairs, "UPD_PROMPT_STYLE"@) {
                    Some(v) => lowercase(v),
                    None => "multiline"@,
                },
            })
        }),
{
}

} // verus!
