//! The configuration of one environment: how its shell starts, which
//! variables it receives and which host binaries it can reach, with a
//! default for every field, decoded from and encoded to a TOML document.
use vstd::prelude::*;

use crate::assoc::{lemma_upsert_all_identity, pairs_view, text_eq, unique_keys, upsert, upsert_all};
use crate::paths::{lemma_views_push, views};

verus! {

/// A TOML value as far as the configuration reads it. Integers, floats and
/// dates are all `Other`: no field of the configuration has such a type.
#[derive(Debug)]
pub enum TomlValue {
    Str(String),
    Bool(bool),
    Array(Vec<TomlValue>),
    Table(Vec<(String, TomlValue)>),
    Other,
}

/// A field of the configuration document.
#[derive(Clone, Copy, Debug, PartialEq, Eq, Structural)]
pub enum Field {
    Shell,
    ShellBin,
    ShellLogin,
    ShellInteractive,
    ShellNoprofile,
    ShellNorc,
    Vars,
    VarsInherit,
    VarsExitOnMissing,
    VarsSet,
    Bin,
    BinInheritDirs,
    BinInherit,
    BinExitOnChange,
    BinExitOnNotFound,
}

/// Why a document does not describe a configuration.
#[derive(Clone, Copy, Debug, PartialEq, Eq, Structural)]
pub enum ConfigError {
    /// The field is present with a type other than its own.
    WrongType(Field),
}

/// How the shell of an environment is started.
#[derive(Debug)]
pub struct Shell {
    pub bin: String,
    pub login: bool,
    pub interactive: bool,
    pub noprofile: bool,
    pub norc: bool,
}

/// Which variables the shell receives.
#[derive(Debug)]
pub struct Vars {
    /// Variables taken from the parent process, in order.
    pub inherit: Vec<String>,
    /// Whether a variable to inherit that the parent lacks is an error.
    pub exit_on_missing: bool,
    /// Variables of this environment; they override inherited ones.
    pub set: Vec<(String, String)>,
}

/// Which host binaries the environment reaches, and its search path.
#[derive(Debug)]
pub struct Bin {
    /// Directories of the shell's `PATH`, highest priority first.
    pub inherit_dirs: Vec<String>,
    /// Binaries to link into the environment: absolute paths, or names
    /// looked up in the host's `PATH`.
    pub inherit: Vec<String>,
    /// Whether an existing link that points elsewhere is an error.
    pub exit_on_change: bool,
    /// Whether a name that the host's `PATH` lacks is an error.
    pub exit_on_not_found: bool,
}

/// The whole configuration of one environment.
#[derive(Debug)]
pub struct Root {
    pub shell: Shell,
    pub vars: Vars,
    pub bin: Bin,
}

pub struct ShellView {
    pub bin: Seq<char>,
    pub login: bool,
    pub interactive: bool,
    pub noprofile: bool,
    pub norc: bool,
}

pub struct VarsView {
    pub inherit: Seq<Seq<char>>,
    pub exit_on_missing: bool,
    pub set: Seq<(Seq<char>, Seq<char>)>,
}

pub struct BinView {
    pub inherit_dirs: Seq<Seq<char>>,
    pub inherit: Seq<Seq<char>>,
    pub exit_on_change: bool,
    pub exit_on_not_found: bool,
}

pub struct RootView {
    pub shell: ShellView,
    pub vars: VarsView,
    pub bin: BinView,
}

impl View for Shell {
    type V = ShellView;

    open spec fn view(&self) -> ShellView {
        ShellView {
            bin: self.bin@,
            login: self.login,
            interactive: self.interactive,
            noprofile: self.noprofile,
            norc: self.norc,
        }
    }
}

impl View for Vars {
    type V = VarsView;

    open spec fn view(&self) -> VarsView {
        VarsView {
            inherit: views(self.inherit@),
            exit_on_missing: self.exit_on_missing,
            set: pairs_view(self.set@),
        }
    }
}

impl View for Bin {
    type V = BinView;

    open spec fn view(&self) -> BinView {
        BinView {
            inherit_dirs: views(self.inherit_dirs@),
            inherit: views(self.inherit@),
            exit_on_change: self.exit_on_change,
            exit_on_not_found: self.exit_on_not_found,
        }
    }
}

impl View for Root {
    type V = RootView;

    open spec fn view(&self) -> RootView {
        RootView { shell: self.shell@, vars: self.vars@, bin: self.bin@ }
    }
}

impl Vars {
    /// `set` is a mapping: each name has one value.
    pub open spec fn wf(&self) -> bool {
        unique_keys(pairs_view(self.set@))
    }
}

impl Root {
    pub open spec fn wf(&self) -> bool {
        self.vars.wf()
    }
}

pub open spec fn default_shell_view() -> ShellView {
    ShellView { bin: "/bin/sh"@, login: false, interactive: true, noprofile: true, norc: false }
}

pub open spec fn default_vars_view() -> VarsView {
    VarsView { inherit: seq![], exit_on_missing: true, set: seq![] }
}

pub open spec fn default_dirs() -> Seq<Seq<char>> {
    seq!["/usr/local/bin"@, "/bin"@, "/usr/bin"@]
}

pub open spec fn default_bin_view() -> BinView {
    BinView {
        inherit_dirs: default_dirs(),
        inherit: seq![],
        exit_on_change: true,
        exit_on_not_found: true,
    }
}

pub open spec fn default_root_view() -> RootView {
    RootView { shell: default_shell_view(), vars: default_vars_view(), bin: default_bin_view() }
}

/// The value of the first entry under `key`.
pub open spec fn entry_lookup(t: Seq<(String, TomlValue)>, key: Seq<char>) -> Option<TomlValue>
    decreases t.len(),
{
    if t.len() == 0 {
        None
    } else if t[0].0@ == key {
        Some(t[0].1)
    } else {
        entry_lookup(t.drop_first(), key)
    }
}

pub open spec fn text_of(v: TomlValue) -> Seq<char> {
    match v {
        TomlValue::Str(s) => s@,
        _ => Seq::<char>::empty(),
    }
}

pub open spec fn all_text(items: Seq<TomlValue>) -> bool {
    forall|i: int| 0 <= i < items.len() ==> #[trigger] items[i] is Str
}

pub open spec fn texts(items: Seq<TomlValue>) -> Seq<Seq<char>> {
    items.map_values(|v: TomlValue| text_of(v))
}

pub open spec fn all_text_values(entries: Seq<(String, TomlValue)>) -> bool {
    forall|i: int| 0 <= i < entries.len() ==> #[trigger] entries[i].1 is Str
}

pub open spec fn text_entries(entries: Seq<(String, TomlValue)>) -> Seq<(Seq<char>, Seq<char>)> {
    entries.map_values(|p: (String, TomlValue)| (p.0@, text_of(p.1)))
}

pub open spec fn bool_spec(t: Seq<(String, TomlValue)>, key: Seq<char>, default: bool, f: Field) -> Result<
    bool,
    ConfigError,
> {
    match entry_lookup(t, key) {
        None => Ok(default),
        Some(TomlValue::Bool(b)) => Ok(b),
        Some(_) => Err(ConfigError::WrongType(f)),
    }
}

pub open spec fn text_spec(
    t: Seq<(String, TomlValue)>,
    key: Seq<char>,
    default: Seq<char>,
    f: Field,
) -> Result<Seq<char>, ConfigError> {
    match entry_lookup(t, key) {
        None => Ok(default),
        Some(TomlValue::Str(s)) => Ok(s@),
        Some(_) => Err(ConfigError::WrongType(f)),
    }
}

pub open spec fn list_spec(
    t: Seq<(String, TomlValue)>,
    key: Seq<char>,
    default: Seq<Seq<char>>,
    f: Field,
) -> Result<Seq<Seq<char>>, ConfigError> {
    match entry_lookup(t, key) {
        None => Ok(default),
        Some(TomlValue::Array(items)) => if all_text(items@) {
            Ok(texts(items@))
        } else {
            Err(ConfigError::WrongType(f))
        },
        Some(_) => Err(ConfigError::WrongType(f)),
    }
}

/// A table of texts; a key given twice keeps its last value.
pub open spec fn mapping_spec(t: Seq<(String, TomlValue)>, key: Seq<char>, f: Field) -> Result<
    Seq<(Seq<char>, Seq<char>)>,
    ConfigError,
> {
    match entry_lookup(t, key) {
        None => Ok(seq![]),
        Some(TomlValue::Table(entries)) => if all_text_values(entries@) {
            Ok(upsert_all(seq![], text_entries(entries@)))
        } else {
            Err(ConfigError::WrongType(f))
        },
        Some(_) => Err(ConfigError::WrongType(f)),
    }
}

/// A section of the document; an absent one reads as an empty table.
pub open spec fn section_spec(doc: Seq<(String, TomlValue)>, key: Seq<char>, f: Field) -> Result<
    Seq<(String, TomlValue)>,
    ConfigError,
> {
    match entry_lookup(doc, key) {
        None => Ok(seq![]),
        Some(TomlValue::Table(entries)) => Ok(entries@),
        Some(_) => Err(ConfigError::WrongType(f)),
    }
}

pub open spec fn shell_spec(t: Seq<(String, TomlValue)>) -> Result<ShellView, ConfigError> {
    let d = default_shell_view();
    let bin = text_spec(t, "bin"@, d.bin, Field::ShellBin);
    let login = bool_spec(t, "login"@, d.login, Field::ShellLogin);
    let interactive = bool_spec(t, "interactive"@, d.interactive, Field::ShellInteractive);
    let noprofile = bool_spec(t, "noprofile"@, d.noprofile, Field::ShellNoprofile);
    let norc = bool_spec(t, "norc"@, d.norc, Field::ShellNorc);
    if bin is Err {
        Err(bin->Err_0)
    } else if login is Err {
        Err(login->Err_0)
    } else if interactive is Err {
        Err(interactive->Err_0)
    } else if noprofile is Err {
        Err(noprofile->Err_0)
    } else if norc is Err {
        Err(norc->Err_0)
    } else {
        Ok(
            ShellView {
                bin: bin->Ok_0,
                login: login->Ok_0,
                interactive: interactive->Ok_0,
                noprofile: noprofile->Ok_0,
                norc: norc->Ok_0,
            },
        )
    }
}

pub open spec fn vars_spec(t: Seq<(String, TomlValue)>) -> Result<VarsView, ConfigError> {
    let d = default_vars_view();
    let inherit = list_spec(t, "inherit"@, d.inherit, Field::VarsInherit);
    let exit_on_missing = bool_spec(t, "exit_on_missing"@, d.exit_on_missing, Field::VarsExitOnMissing);
    let set = mapping_spec(t, "set"@, Field::VarsSet);
    if inherit is Err {
        Err(inherit->Err_0)
    } else if exit_on_missing is Err {
        Err(exit_on_missing->Err_0)
    } else if set is Err {
        Err(set->Err_0)
    } else {
        Ok(
            VarsView {
                inherit: inherit->Ok_0,
                exit_on_missing: exit_on_missing->Ok_0,
                set: set->Ok_0,
            },
        )
    }
}

pub open spec fn bin_spec(t: Seq<(String, TomlValue)>) -> Result<BinView, ConfigError> {
    let d = default_bin_view();
    let inherit_dirs = list_spec(t, "inherit_dirs"@, d.inherit_dirs, Field::BinInheritDirs);
    let inherit = list_spec(t, "inherit"@, d.inherit, Field::BinInherit);
    let exit_on_change = bool_spec(t, "exit_on_change"@, d.exit_on_change, Field::BinExitOnChange);
    let exit_on_not_found = bool_spec(
        t,
        "exit_on_not_found"@,
        d.exit_on_not_found,
        Field::BinExitOnNotFound,
    );
    if inherit_dirs is Err {
        Err(inherit_dirs->Err_0)
    } else if inherit is Err {
        Err(inherit->Err_0)
    } else if exit_on_change is Err {
        Err(exit_on_change->Err_0)
    } else if exit_on_not_found is Err {
        Err(exit_on_not_found->Err_0)
    } else {
        Ok(
            BinView {
                inherit_dirs: inherit_dirs->Ok_0,
                inherit: inherit->Ok_0,
                exit_on_change: exit_on_change->Ok_0,
                exit_on_not_found: exit_on_not_found->Ok_0,
            },
        )
    }
}

/// What a document describes: each section and each field read on its
/// own, an absent one taking its default, unknown keys ignored.
pub open spec fn load_spec(doc: Seq<(String, TomlValue)>) -> Result<RootView, ConfigError> {
    let shell_t = section_spec(doc, "shell"@, Field::Shell);
    let vars_t = section_spec(doc, "vars"@, Field::Vars);
    let bin_t = section_spec(doc, "bin"@, Field::Bin);
    if shell_t is Err {
        Err(shell_t->Err_0)
    } else if vars_t is Err {
        Err(vars_t->Err_0)
    } else if bin_t is Err {
        Err(bin_t->Err_0)
    } else {
        let shell = shell_spec(shell_t->Ok_0);
        let vars = vars_spec(vars_t->Ok_0);
        let bin = bin_spec(bin_t->Ok_0);
        if shell is Err {
            Err(shell->Err_0)
        } else if vars is Err {
            Err(vars->Err_0)
        } else if bin is Err {
            Err(bin->Err_0)
        } else {
            Ok(RootView { shell: shell->Ok_0, vars: vars->Ok_0, bin: bin->Ok_0 })
        }
    }
}

proof fn lemma_lookup_at(t: Seq<(String, TomlValue)>, key: Seq<char>, i: int)
    requires
        0 <= i < t.len(),
        t[i].0@ == key,
        forall|j: int| 0 <= j < i ==> #[trigger] t[j].0@ != key,
    ensures
        entry_lookup(t, key) == Some(t[i].1),
    decreases i,
{
    if i > 0 {
        assert forall|j: int| 0 <= j < i - 1 implies #[trigger] t.drop_first()[j].0@ != key by {
            assert(t[j + 1].0@ != key);
        }
        lemma_lookup_at(t.drop_first(), key, i - 1);
    }
}

fn lookup<'a>(t: &'a Vec<(String, TomlValue)>, key: &str) -> (r: Option<&'a TomlValue>)
    ensures
        match r {
            Some(v) => entry_lookup(t@, key@) == Some(*v),
            None => entry_lookup(t@, key@) is None,
        },
{
    let mut i: usize = 0;
    proof {
        assert(t@.subrange(0, t@.len() as int) =~= t@);
    }
    while i < t.len()
        invariant
            i <= t@.len(),
            entry_lookup(t@, key@) == entry_lookup(t@.subrange(i as int, t@.len() as int), key@),
        decreases t@.len() - i,
    {
        let ghost rest = t@.subrange(i as int, t@.len() as int);
        if text_eq(t[i].0.as_str(), key) {
            return Some(&t[i].1);
        }
        proof {
            assert(rest.drop_first() =~= t@.subrange(i + 1, t@.len() as int));
        }
        i = i + 1;
    }
    None
}

fn bool_field(t: &Vec<(String, TomlValue)>, key: &str, default: bool, f: Field) -> (r: Result<
    bool,
    ConfigError,
>)
    ensures
        r == bool_spec(t@, key@, default, f),
{
    match lookup(t, key) {
        None => Ok(default),
        Some(TomlValue::Bool(b)) => Ok(*b),
        Some(_) => Err(ConfigError::WrongType(f)),
    }
}

fn text_field(t: &Vec<(String, TomlValue)>, key: &str, default: &str, f: Field) -> (r: Result<
    String,
    ConfigError,
>)
    ensures
        match r {
            Ok(s) => text_spec(t@, key@, default@, f) == Ok::<Seq<char>, ConfigError>(s@),
            Err(e) => text_spec(t@, key@, default@, f) == Err::<Seq<char>, ConfigError>(e),
        },
{
    match lookup(t, key) {
        None => Ok(String::from_str(default)),
        Some(TomlValue::Str(s)) => Ok(s.clone()),
        Some(_) => Err(ConfigError::WrongType(f)),
    }
}

fn text_list(items: &Vec<TomlValue>) -> (r: Option<Vec<String>>)
    ensures
        match r {
            Some(v) => all_text(items@) && views(v@) == texts(items@),
            None => !all_text(items@),
        },
{
    let mut out: Vec<String> = Vec::new();
    let mut i: usize = 0;
    proof {
        assert(views(out@) =~= texts(items@.subrange(0, 0)));
    }
    while i < items.len()
        invariant
            i <= items@.len(),
            forall|j: int| 0 <= j < i ==> #[trigger] items@[j] is Str,
            views(out@) == texts(items@.subrange(0, i as int)),
        decreases items@.len() - i,
    {
        match &items[i] {
            TomlValue::Str(s) => {
                let c = s.clone();
                proof {
                    lemma_views_push(out@, c);
                    assert(texts(items@.subrange(0, i + 1)) =~= texts(
                        items@.subrange(0, i as int),
                    ).push(c@));
                }
                out.push(c);
            },
            _ => {
                return None;
            },
        }
        i = i + 1;
    }
    proof {
        assert(items@.subrange(0, i as int) =~= items@);
    }
    Some(out)
}

fn list_field(t: &Vec<(String, TomlValue)>, key: &str, default: Vec<String>, f: Field) -> (r:
    Result<Vec<String>, ConfigError>)
    ensures
        match r {
            Ok(v) => list_spec(t@, key@, views(default@), f) == Ok::<Seq<Seq<char>>, ConfigError>(
                views(v@),
            ),
            Err(e) => list_spec(t@, key@, views(default@), f) == Err::<Seq<Seq<char>>, ConfigError>(
                e,
            ),
        },
{
    match lookup(t, key) {
        None => Ok(default),
        Some(TomlValue::Array(items)) => match text_list(items) {
            Some(v) => Ok(v),
            None => Err(ConfigError::WrongType(f)),
        },
        Some(_) => Err(ConfigError::WrongType(f)),
    }
}

fn text_mapping(entries: &Vec<(String, TomlValue)>) -> (r: Option<Vec<(String, String)>>)
    ensures
        match r {
            Some(m) => all_text_values(entries@) && pairs_view(m@) == upsert_all(
                seq![],
                text_entries(entries@),
            ) && unique_keys(pairs_view(m@)),
            None => !all_text_values(entries@),
        },
{
    let mut out: Vec<(String, String)> = Vec::new();
    let mut i: usize = 0;
    proof {
        assert(pairs_view(out@) =~= seq![]);
        assert(text_entries(entries@.subrange(0, 0)) =~= seq![]);
    }
    while i < entries.len()
        invariant
            i <= entries@.len(),
            forall|j: int| 0 <= j < i ==> #[trigger] entries@[j].1 is Str,
            pairs_view(out@) == upsert_all(seq![], text_entries(entries@.subrange(0, i as int))),
            unique_keys(pairs_view(out@)),
        decreases entries@.len() - i,
    {
        match &entries[i].1 {
            TomlValue::Str(v) => {
                proof {
                    assert(text_entries(entries@.subrange(0, i + 1)).drop_last() =~= text_entries(
                        entries@.subrange(0, i as int),
                    ));
                }
                upsert(&mut out, entries[i].0.clone(), v.clone());
            },
            _ => {
                return None;
            },
        }
        i = i + 1;
    }
    proof {
        assert(entries@.subrange(0, i as int) =~= entries@);
    }
    Some(out)
}

fn mapping_field(t: &Vec<(String, TomlValue)>, key: &str, f: Field) -> (r: Result<
    Vec<(String, String)>,
    ConfigError,
>)
    ensures
        match r {
            Ok(m) => mapping_spec(t@, key@, f) == Ok::<Seq<(Seq<char>, Seq<char>)>, ConfigError>(
                pairs_view(m@),
            ) && unique_keys(pairs_view(m@)),
            Err(e) => mapping_spec(t@, key@, f) == Err::<Seq<(Seq<char>, Seq<char>)>, ConfigError>(
                e,
            ),
        },
{
    match lookup(t, key) {
        None => {
            let m: Vec<(String, String)> = Vec::new();
            proof {
                assert(pairs_view(m@) =~= seq![]);
            }
            Ok(m)
        },
        Some(TomlValue::Table(entries)) => match text_mapping(entries) {
            Some(m) => Ok(m),
            None => Err(ConfigError::WrongType(f)),
        },
        Some(_) => Err(ConfigError::WrongType(f)),
    }
}

fn section<'a>(doc: &'a Vec<(String, TomlValue)>, key: &str, f: Field) -> (r: Result<
    Option<&'a Vec<(String, TomlValue)>>,
    ConfigError,
>)
    ensures
        match r {
            Ok(Some(t)) => section_spec(doc@, key@, f) == Ok::<Seq<(String, TomlValue)>, ConfigError>(
                t@,
            ),
            Ok(None) => section_spec(doc@, key@, f) == Ok::<Seq<(String, TomlValue)>, ConfigError>(
                seq![],
            ),
            Err(e) => section_spec(doc@, key@, f) == Err::<Seq<(String, TomlValue)>, ConfigError>(e),
        },
{
    match lookup(doc, key) {
        None => Ok(None),
        Some(TomlValue::Table(entries)) => Ok(Some(entries)),
        Some(_) => Err(ConfigError::WrongType(f)),
    }
}

fn default_shell() -> (r: Shell)
    ensures
        r@ == default_shell_view(),
{
    Shell {
        bin: String::from_str("/bin/sh"),
        login: false,
        interactive: true,
        noprofile: true,
        norc: false,
    }
}

fn default_vars() -> (r: Vars)
    ensures
        r@ == default_vars_view(),
        r.wf(),
{
    let r = Vars { inherit: Vec::new(), exit_on_missing: true, set: Vec::new() };
    proof {
        assert(views(r.inherit@) =~= seq![]);
        assert(pairs_view(r.set@) =~= seq![]);
    }
    r
}

fn default_inherit_dirs() -> (r: Vec<String>)
    ensures
        views(r@) == default_dirs(),
{
    let mut r: Vec<String> = Vec::new();
    r.push(String::from_str("/usr/local/bin"));
    r.push(String::from_str("/bin"));
    r.push(String::from_str("/usr/bin"));
    proof {
        assert(views(r@) =~= default_dirs());
    }
    r
}

fn default_bin() -> (r: Bin)
    ensures
        r@ == default_bin_view(),
{
    let r = Bin {
        inherit_dirs: default_inherit_dirs(),
        inherit: Vec::new(),
        exit_on_change: true,
        exit_on_not_found: true,
    };
    proof {
        assert(views(r.inherit@) =~= seq![]);
    }
    r
}

fn default_root() -> (r: Root)
    ensures
        r@ == default_root_view(),
        r.wf(),
{
    Root { shell: default_shell(), vars: default_vars(), bin: default_bin() }
}

fn load_shell(t: &Vec<(String, TomlValue)>) -> (r: Result<Shell, ConfigError>)
    ensures
        match r {
            Ok(s) => shell_spec(t@) == Ok::<ShellView, ConfigError>(s@),
            Err(e) => shell_spec(t@) == Err::<ShellView, ConfigError>(e),
        },
{
    let bin = match text_field(t, "bin", "/bin/sh", Field::ShellBin) {
        Ok(v) => v,
        Err(e) => return Err(e),
    };
    let login = match bool_field(t, "login", false, Field::ShellLogin) {
        Ok(v) => v,
        Err(e) => return Err(e),
    };
    let interactive = match bool_field(t, "interactive", true, Field::ShellInteractive) {
        Ok(v) => v,
        Err(e) => return Err(e),
    };
    let noprofile = match bool_field(t, "noprofile", true, Field::ShellNoprofile) {
        Ok(v) => v,
        Err(e) => return Err(e),
    };
    let norc = match bool_field(t, "norc", false, Field::ShellNorc) {
        Ok(v) => v,
        Err(e) => return Err(e),
    };
    Ok(Shell { bin, login, interactive, noprofile, norc })
}

fn load_vars(t: &Vec<(String, TomlValue)>) -> (r: Result<Vars, ConfigError>)
    ensures
        match r {
            Ok(v) => vars_spec(t@) == Ok::<VarsView, ConfigError>(v@) && v.wf(),
            Err(e) => vars_spec(t@) == Err::<VarsView, ConfigError>(e),
        },
{
    let none: Vec<String> = Vec::new();
    proof {
        assert(views(none@) =~= seq![]);
    }
    let inherit = match list_field(t, "inherit", none, Field::VarsInherit) {
        Ok(v) => v,
        Err(e) => return Err(e),
    };
    let exit_on_missing = match bool_field(t, "exit_on_missing", true, Field::VarsExitOnMissing) {
        Ok(v) => v,
        Err(e) => return Err(e),
    };
    let set = match mapping_field(t, "set", Field::VarsSet) {
        Ok(v) => v,
        Err(e) => return Err(e),
    };
    Ok(Vars { inherit, exit_on_missing, set })
}

fn load_bin(t: &Vec<(String, TomlValue)>) -> (r: Result<Bin, ConfigError>)
    ensures
        match r {
            Ok(b) => bin_spec(t@) == Ok::<BinView, ConfigError>(b@),
            Err(e) => bin_spec(t@) == Err::<BinView, ConfigError>(e),
        },
{
    let inherit_dirs = match list_field(
        t,
        "inherit_dirs",
        default_inherit_dirs(),
        Field::BinInheritDirs,
    ) {
        Ok(v) => v,
        Err(e) => return Err(e),
    };
    let none: Vec<String> = Vec::new();
    proof {
        assert(views(none@) =~= seq![]);
    }
    let inherit = match list_field(t, "inherit", none, Field::BinInherit) {
        Ok(v) => v,
        Err(e) => return Err(e),
    };
    let exit_on_change = match bool_field(t, "exit_on_change", true, Field::BinExitOnChange) {
        Ok(v) => v,
        Err(e) => return Err(e),
    };
    let exit_on_not_found = match bool_field(
        t,
        "exit_on_not_found",
        true,
        Field::BinExitOnNotFound,
    ) {
        Ok(v) => v,
        Err(e) => return Err(e),
    };
    Ok(Bin { inherit_dirs, inherit, exit_on_change, exit_on_not_found })
}

impl Root {
    /// The configuration with every field at its default.
    pub fn new() -> (r: Self)
        ensures
            r@ == default_root_view(),
            r.wf(),
    {
        default_root()
    }

    /// Reads a configuration from a document: each absent field takes its
    /// default, keys that name no field are ignored, and a field of the
    /// wrong type is an error.
    pub fn load(doc: &Vec<(String, TomlValue)>) -> (r: Result<Root, ConfigError>)
        ensures
            match r {
                Ok(c) => load_spec(doc@) == Ok::<RootView, ConfigError>(c@) && c.wf(),
                Err(e) => load_spec(doc@) == Err::<RootView, ConfigError>(e),
            },
    {
        let empty: Vec<(String, TomlValue)> = Vec::new();
        let shell_t = match section(doc, "shell", Field::Shell) {
            Ok(Some(t)) => t,
            Ok(None) => &empty,
            Err(e) => return Err(e),
        };
        let vars_t = match section(doc, "vars", Field::Vars) {
            Ok(Some(t)) => t,
            Ok(None) => &empty,
            Err(e) => return Err(e),
        };
        let bin_t = match section(doc, "bin", Field::Bin) {
            Ok(Some(t)) => t,
            Ok(None) => &empty,
            Err(e) => return Err(e),
        };
        proof {
            assert(empty@ =~= seq![]);
        }
        let shell = match load_shell(shell_t) {
            Ok(v) => v,
            Err(e) => return Err(e),
        };
        let vars = match load_vars(vars_t) {
            Ok(v) => v,
            Err(e) => return Err(e),
        };
        let bin = match load_bin(bin_t) {
            Ok(v) => v,
            Err(e) => return Err(e),
        };
        Ok(Root { shell, vars, bin })
    }
}

fn text_array(v: &Vec<String>) -> (r: TomlValue)
    ensures
        match r {
            TomlValue::Array(items) => all_text(items@) && texts(items@) == views(v@),
            _ => false,
        },
{
    let mut items: Vec<TomlValue> = Vec::new();
    let mut i: usize = 0;
    while i < v.len()
        invariant
            i <= v@.len(),
            items@.len() == i,
            all_text(items@),
            texts(items@) == views(v@.subrange(0, i as int)),
        decreases v@.len() - i,
    {
        let s = v[i].clone();
        let ghost prev = items@;
        items.push(TomlValue::Str(s));
        proof {
            assert(texts(items@).drop_last() =~= texts(prev));
            assert(views(v@.subrange(0, i + 1)).drop_last() =~= views(v@.subrange(0, i as int)));
            assert(s@ == v@[i as int]@);
            assert(items@[i as int] == TomlValue::Str(s));
            assert(texts(items@)[i as int] == s@);
            assert forall|j: int| 0 <= j < i + 1 implies texts(items@)[j] == views(
                v@.subrange(0, i + 1),
            )[j] by {
                if j < i {
                    assert(texts(items@).drop_last()[j] == texts(items@)[j]);
                    assert(views(v@.subrange(0, i + 1)).drop_last()[j] == views(
                        v@.subrange(0, i + 1),
                    )[j]);
                }
            }
            assert(texts(items@) =~= views(v@.subrange(0, i + 1)));
        }
        i = i + 1;
    }
    proof {
        assert(v@.subrange(0, i as int) =~= v@);
    }
    TomlValue::Array(items)
}

fn text_table(m: &Vec<(String, String)>) -> (r: TomlValue)
    ensures
        match r {
            TomlValue::Table(e) => all_text_values(e@) && text_entries(e@) == pairs_view(m@),
            _ => false,
        },
{
    let mut entries: Vec<(String, TomlValue)> = Vec::new();
    let mut i: usize = 0;
    while i < m.len()
        invariant
            i <= m@.len(),
            entries@.len() == i,
            all_text_values(entries@),
            text_entries(entries@) == pairs_view(m@.subrange(0, i as int)),
        decreases m@.len() - i,
    {
        let k = m[i].0.clone();
        let s = m[i].1.clone();
        let ghost prev = entries@;
        entries.push((k, TomlValue::Str(s)));
        proof {
            assert(text_entries(entries@).drop_last() =~= text_entries(prev));
            assert(pairs_view(m@.subrange(0, i + 1)).drop_last() =~= pairs_view(
                m@.subrange(0, i as int),
            ));
            assert forall|j: int| 0 <= j < i + 1 implies text_entries(entries@)[j] == pairs_view(
                m@.subrange(0, i + 1),
            )[j] by {
                if j < i {
                    assert(text_entries(entries@).drop_last()[j] == text_entries(entries@)[j]);
                    assert(pairs_view(m@.subrange(0, i + 1)).drop_last()[j] == pairs_view(
                        m@.subrange(0, i + 1),
                    )[j]);
                }
            }
            assert(text_entries(entries@) =~= pairs_view(m@.subrange(0, i + 1)));
        }
        i = i + 1;
    }
    proof {
        assert(m@.subrange(0, i as int) =~= m@);
    }
    TomlValue::Table(entries)
}

/// `t` is the section that writing out `s` gives: each field once, in
/// the order of the struct.
pub open spec fn shell_doc(t: Seq<(String, TomlValue)>, s: ShellView) -> bool {
    &&& t.len() == 5
    &&& t[0].0@ == "bin"@ && t[0].1 is Str && text_of(t[0].1) == s.bin
    &&& t[1].0@ == "login"@ && t[1].1 == TomlValue::Bool(s.login)
    &&& t[2].0@ == "interactive"@ && t[2].1 == TomlValue::Bool(s.interactive)
    &&& t[3].0@ == "noprofile"@ && t[3].1 == TomlValue::Bool(s.noprofile)
    &&& t[4].0@ == "norc"@ && t[4].1 == TomlValue::Bool(s.norc)
}

pub open spec fn text_list_doc(v: TomlValue, l: Seq<Seq<char>>) -> bool {
    match v {
        TomlValue::Array(items) => all_text(items@) && texts(items@) == l,
        _ => false,
    }
}

pub open spec fn mapping_doc(v: TomlValue, m: Seq<(Seq<char>, Seq<char>)>) -> bool {
    match v {
        TomlValue::Table(entries) => all_text_values(entries@) && text_entries(entries@) == m,
        _ => false,
    }
}

pub open spec fn vars_doc(t: Seq<(String, TomlValue)>, v: VarsView) -> bool {
    &&& t.len() == 3
    &&& t[0].0@ == "inherit"@ && text_list_doc(t[0].1, v.inherit)
    &&& t[1].0@ == "exit_on_missing"@ && t[1].1 == TomlValue::Bool(v.exit_on_missing)
    &&& t[2].0@ == "set"@ && mapping_doc(t[2].1, v.set)
}

pub open spec fn bin_doc(t: Seq<(String, TomlValue)>, b: BinView) -> bool {
    &&& t.len() == 4
    &&& t[0].0@ == "inherit_dirs"@ && text_list_doc(t[0].1, b.inherit_dirs)
    &&& t[1].0@ == "inherit"@ && text_list_doc(t[1].1, b.inherit)
    &&& t[2].0@ == "exit_on_change"@ && t[2].1 == TomlValue::Bool(b.exit_on_change)
    &&& t[3].0@ == "exit_on_not_found"@ && t[3].1 == TomlValue::Bool(b.exit_on_not_found)
}

/// `d` is the document that writing out `v` gives: the three sections in
/// order, each with all of its fields.
pub open spec fn root_doc(d: Seq<(String, TomlValue)>, v: RootView) -> bool {
    &&& d.len() == 3
    &&& d[0].0@ == "shell"@
    &&& match d[0].1 {
        TomlValue::Table(t) => shell_doc(t@, v.shell),
        _ => false,
    }
    &&& d[1].0@ == "vars"@
    &&& match d[1].1 {
        TomlValue::Table(t) => vars_doc(t@, v.vars),
        _ => false,
    }
    &&& d[2].0@ == "bin"@
    &&& match d[2].1 {
        TomlValue::Table(t) => bin_doc(t@, v.bin),
        _ => false,
    }
}

proof fn lemma_shell_doc(t: Seq<(String, TomlValue)>, s: ShellView)
    requires
        shell_doc(t, s),
    ensures
        shell_spec(t) == Ok::<ShellView, ConfigError>(s),
{
    reveal_strlit("bin");
    reveal_strlit("login");
    reveal_strlit("interactive");
    reveal_strlit("noprofile");
    reveal_strlit("norc");
    assert("bin"@.len() == 3 && "login"@.len() == 5 && "interactive"@.len() == 11);
    assert("noprofile"@.len() == 9 && "norc"@.len() == 4);
    lemma_lookup_at(t, "bin"@, 0);
    lemma_lookup_at(t, "login"@, 1);
    lemma_lookup_at(t, "interactive"@, 2);
    lemma_lookup_at(t, "noprofile"@, 3);
    lemma_lookup_at(t, "norc"@, 4);
}

proof fn lemma_vars_doc(t: Seq<(String, TomlValue)>, v: VarsView)
    requires
        vars_doc(t, v),
        unique_keys(v.set),
    ensures
        vars_spec(t) == Ok::<VarsView, ConfigError>(v),
{
    reveal_strlit("inherit");
    reveal_strlit("exit_on_missing");
    reveal_strlit("set");
    assert("inherit"@.len() == 7 && "exit_on_missing"@.len() == 15 && "set"@.len() == 3);
    lemma_lookup_at(t, "inherit"@, 0);
    lemma_lookup_at(t, "exit_on_missing"@, 1);
    lemma_lookup_at(t, "set"@, 2);
    lemma_upsert_all_identity(v.set);
}

proof fn lemma_bin_doc(t: Seq<(String, TomlValue)>, b: BinView)
    requires
        bin_doc(t, b),
    ensures
        bin_spec(t) == Ok::<BinView, ConfigError>(b),
{
    reveal_strlit("inherit_dirs");
    reveal_strlit("inherit");
    reveal_strlit("exit_on_change");
    reveal_strlit("exit_on_not_found");
    assert("inherit_dirs"@.len() == 12 && "inherit"@.len() == 7);
    assert("exit_on_change"@.len() == 14 && "exit_on_not_found"@.len() == 17);
    lemma_lookup_at(t, "inherit_dirs"@, 0);
    lemma_lookup_at(t, "inherit"@, 1);
    lemma_lookup_at(t, "exit_on_change"@, 2);
    lemma_lookup_at(t, "exit_on_not_found"@, 3);
}

/// A written-out configuration reads back as itself.
pub proof fn lemma_root_doc(d: Seq<(String, TomlValue)>, v: RootView)
    requires
        root_doc(d, v),
        unique_keys(v.vars.set),
    ensures
        load_spec(d) == Ok::<RootView, ConfigError>(v),
{
    reveal_strlit("shell");
    reveal_strlit("vars");
    reveal_strlit("bin");
    assert("shell"@.len() == 5 && "vars"@.len() == 4 && "bin"@.len() == 3);
    lemma_lookup_at(d, "shell"@, 0);
    lemma_lookup_at(d, "vars"@, 1);
    lemma_lookup_at(d, "bin"@, 2);
    if let TomlValue::Table(t) = d[0].1 {
        lemma_shell_doc(t@, v.shell);
    }
    if let TomlValue::Table(t) = d[1].1 {
        lemma_vars_doc(t@, v.vars);
    }
    if let TomlValue::Table(t) = d[2].1 {
        lemma_bin_doc(t@, v.bin);
    }
}

/// Writing a configuration out, reading it back and writing the result out
/// again gives the document of the first writing: both are the document of
/// the same configuration.
pub proof fn law_write_read_write(v: RootView, first: Seq<(String, TomlValue)>, second: Seq<
    (String, TomlValue),
>)
    requires
        unique_keys(v.vars.set),
        root_doc(first, v),
        load_spec(first) matches Ok(read) && root_doc(second, read),
    ensures
        load_spec(first) == Ok::<RootView, ConfigError>(v),
        root_doc(second, v),
{
    lemma_root_doc(first, v);
}

/// The entries of a section, or none where the section is absent or is no
/// table.
pub open spec fn section_entries(doc: Seq<(String, TomlValue)>, key: Seq<char>) -> Seq<
    (String, TomlValue),
> {
    match entry_lookup(doc, key) {
        Some(TomlValue::Table(entries)) => entries@,
        _ => seq![],
    }
}

/// Reading a document gives each field that it leaves out its default, and
/// the empty document gives the default configuration.
pub proof fn law_omitted_fields_default(doc: Seq<(String, TomlValue)>)
    ensures
        load_spec(seq![]) == Ok::<RootView, ConfigError>(default_root_view()),
        load_spec(doc) matches Ok(r) ==> {
            let sh = section_entries(doc, "shell"@);
            let va = section_entries(doc, "vars"@);
            let bi = section_entries(doc, "bin"@);
            let ds = default_shell_view();
            let dv = default_vars_view();
            let db = default_bin_view();
            &&& entry_lookup(sh, "bin"@) is None ==> r.shell.bin == ds.bin
            &&& entry_lookup(sh, "login"@) is None ==> r.shell.login == ds.login
            &&& entry_lookup(sh, "interactive"@) is None ==> r.shell.interactive == ds.interactive
            &&& entry_lookup(sh, "noprofile"@) is None ==> r.shell.noprofile == ds.noprofile
            &&& entry_lookup(sh, "norc"@) is None ==> r.shell.norc == ds.norc
            &&& entry_lookup(va, "inherit"@) is None ==> r.vars.inherit == dv.inherit
            &&& entry_lookup(va, "exit_on_missing"@) is None ==> r.vars.exit_on_missing
                == dv.exit_on_missing
            &&& entry_lookup(va, "set"@) is None ==> r.vars.set == dv.set
            &&& entry_lookup(bi, "inherit_dirs"@) is None ==> r.bin.inherit_dirs == db.inherit_dirs
            &&& entry_lookup(bi, "inherit"@) is None ==> r.bin.inherit == db.inherit
            &&& entry_lookup(bi, "exit_on_change"@) is None ==> r.bin.exit_on_change
                == db.exit_on_change
            &&& entry_lookup(bi, "exit_on_not_found"@) is None ==> r.bin.exit_on_not_found
                == db.exit_on_not_found
        },
{
    assert(upsert_all(seq![], text_entries(seq![])) == Seq::<(Seq<char>, Seq<char>)>::empty());
}

fn shell_table(s: &Shell) -> (r: Vec<(String, TomlValue)>)
    ensures
        shell_doc(r@, s@),
{
    let mut t: Vec<(String, TomlValue)> = Vec::new();
    t.push((String::from_str("bin"), TomlValue::Str(s.bin.clone())));
    t.push((String::from_str("login"), TomlValue::Bool(s.login)));
    t.push((String::from_str("interactive"), TomlValue::Bool(s.interactive)));
    t.push((String::from_str("noprofile"), TomlValue::Bool(s.noprofile)));
    t.push((String::from_str("norc"), TomlValue::Bool(s.norc)));
    t
}

fn vars_table(v: &Vars) -> (r: Vec<(String, TomlValue)>)
    ensures
        vars_doc(r@, v@),
{
    let mut t: Vec<(String, TomlValue)> = Vec::new();
    t.push((String::from_str("inherit"), text_array(&v.inherit)));
    t.push((String::from_str("exit_on_missing"), TomlValue::Bool(v.exit_on_missing)));
    t.push((String::from_str("set"), text_table(&v.set)));
    t
}

fn bin_table(b: &Bin) -> (r: Vec<(String, TomlValue)>)
    ensures
        bin_doc(r@, b@),
{
    let mut t: Vec<(String, TomlValue)> = Vec::new();
    t.push((String::from_str("inherit_dirs"), text_array(&b.inherit_dirs)));
    t.push((String::from_str("inherit"), text_array(&b.inherit)));
    t.push((String::from_str("exit_on_change"), TomlValue::Bool(b.exit_on_change)));
    t.push((String::from_str("exit_on_not_found"), TomlValue::Bool(b.exit_on_not_found)));
    t
}

impl Root {
    /// The document of this configuration, with every field written out.
    /// Reading it back gives this configuration again.
    pub fn to_doc(&self) -> (r: Vec<(String, TomlValue)>)
        requires
            self.wf(),
        ensures
            root_doc(r@, self@),
            load_spec(r@) == Ok::<RootView, ConfigError>(self@),
    {
        let mut doc: Vec<(String, TomlValue)> = Vec::new();
        doc.push((String::from_str("shell"), TomlValue::Table(shell_table(&self.shell))));
        doc.push((String::from_str("vars"), TomlValue::Table(vars_table(&self.vars))));
        doc.push((String::from_str("bin"), TomlValue::Table(bin_table(&self.bin))));
        proof {
            lemma_root_doc(doc@, self@);
        }
        doc
    }
}

} // verus!
