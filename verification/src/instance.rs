//! The instance store: named game profiles and their on-disk records.
//!
//! An instance lives in `instances/<folder_name>/`, holding the record file
//! `instance.toml` (see `crate::record`) and a `Mods` folder of archives
//! (see `crate::mods`).  The store's logic — deriving a folder name from a
//! display name, turning record texts into instances and back, and keeping
//! the loadable ones of a whole directory listing — lives here; reading and
//! writing the files themselves is the caller's part, which hands each
//! folder's name, record text and mod files in as plain values.

use crate::mods::{load_mods, mf_view, mi_view, spec_load_mods, ModFile, ModInfo};
use crate::record::{
    opt_view, parse_record, render_record, spec_parse_record, spec_render, RecordFields,
};
use vstd::prelude::*;

verus! {

/// A named game profile.  `folder_name` identifies it on disk and never
/// changes after creation; `name`, `icon` and `game_exe_path` are the
/// persisted fields; `mods` is derived by scanning and never persisted.
pub struct Instance {
    pub folder_name: String,
    pub mods: Vec<ModInfo>,
    pub name: String,
    pub icon: Option<String>,
    pub game_exe_path: Option<String>,
}

/// Why a folder yielded no instance.
#[derive(Debug)]
pub enum InstanceError {
    /// The record file is absent or could not be read.
    TomlMissing,
    /// The record file was read but does not parse to the schema.
    TomlParseError,
}

/// The folder name derived from a display name: what `filenamify` makes of
/// it.
pub uninterp spec fn sanitized(name: Seq<char>) -> Seq<char>;

/// Characters that cannot stand in a file name: path separators, the
/// characters Windows reserves, and control codes.
pub open spec fn is_path_unsafe(c: char) -> bool {
    c == '<' || c == '>' || c == ':' || c == '"' || c == '/' || c == '\\' || c == '|' || c == '?'
        || c == '*' || c as u32 <= 0x1f || (0x7f <= c as u32 <= 0x9f)
}

/// Relies on `filenamify::filenamify`: it replaces every run of reserved
/// characters (`<>:"/\|?*`, control codes) and outer periods with `_` and
/// appends `_` to Windows-reserved device names, so the result holds no
/// path-unsafe character, and a non-empty name keeps at least one
/// character.
#[verifier::external_body]
fn sanitize_file_name(name: &str) -> (r: String)
    ensures
        r@ == sanitized(name@),
        forall|i: int| 0 <= i < r@.len() ==> !is_path_unsafe(#[trigger] r@[i]),
        name@.len() > 0 ==> r@.len() > 0,
{
    filenamify::filenamify(name)
}

impl Instance {
    /// A fresh in-memory instance for a display name: its folder name is
    /// derived once from the display name, nothing else is set yet, and
    /// disk is not touched.
    pub fn new(name: &str) -> (r: Instance)
        ensures
            r.name@ == name@,
            r.folder_name@ == sanitized(name@),
            forall|i: int| 0 <= i < r.folder_name@.len() ==> !is_path_unsafe(
                #[trigger] r.folder_name@[i],
            ),
            name@.len() > 0 ==> r.folder_name@.len() > 0,
            r.icon is None,
            r.game_exe_path is None,
            r.mods@ == Seq::<ModInfo>::empty(),
    {
        Instance {
            folder_name: sanitize_file_name(name),
            mods: Vec::new(),
            name: name.to_owned(),
            icon: None,
            game_exe_path: None,
        }
    }

    /// The folder name as an owned string.
    pub fn folder_name_string(&self) -> (r: String)
        ensures
            r@ == self.folder_name@,
    {
        self.folder_name.clone()
    }

    /// How many mods the last scan found.
    pub fn mods_count(&self) -> (r: usize)
        ensures
            r == self.mods@.len(),
    {
        self.mods.len()
    }

    /// The record text that persisting this instance writes: exactly the
    /// persisted fields, never the folder name or the mod list.
    pub fn record_text(&self) -> (r: String)
        ensures
            r@ == spec_render(self.name@, opt_view(self.icon), opt_view(self.game_exe_path)),
    {
        let icon = match &self.icon {
            Some(s) => Some(s.clone()),
            None => None,
        };
        let game_exe_path = match &self.game_exe_path {
            Some(s) => Some(s.clone()),
            None => None,
        };
        render_record(&RecordFields { name: self.name.clone(), icon, game_exe_path })
    }

    /// Builds the instance of one folder from what the caller found there:
    /// the folder's name, the record text if the record file could be read,
    /// and the files of its `Mods` folder.  The folder name is taken from
    /// the directory, never from the record; the mod list is scanned fresh.
    pub fn load(folder_name: &str, record: Option<&str>, mod_files: &Vec<ModFile>) -> (r: Result<
        Instance,
        InstanceError,
    >)
        ensures
            match r {
                Ok(inst) => {
                    &&& record is Some
                    &&& spec_parse_record(record->Some_0@) is Some
                    &&& inst.name@ == spec_parse_record(record->Some_0@)->Some_0.0
                    &&& opt_view(inst.icon) == spec_parse_record(record->Some_0@)->Some_0.1
                    &&& opt_view(inst.game_exe_path) == spec_parse_record(
                        record->Some_0@,
                    )->Some_0.2
                    &&& inst.folder_name@ == folder_name@
                    &&& inst.mods@.map_values(|m: ModInfo| mi_view(m)) == spec_load_mods(
                        mod_files@.map_values(|f: ModFile| mf_view(f)),
                    )
                },
                Err(e) => match record {
                    None => e is TomlMissing,
                    Some(text) => e is TomlParseError && spec_parse_record(text@) is None,
                },
            },
    {
        let text = match record {
            Some(t) => t,
            None => {
                return Err(InstanceError::TomlMissing);
            },
        };
        match parse_record(text) {
            None => Err(InstanceError::TomlParseError),
            Some(fields) => Ok(
                Instance {
                    folder_name: folder_name.to_owned(),
                    mods: load_mods(mod_files),
                    name: fields.name,
                    icon: fields.icon,
                    game_exe_path: fields.game_exe_path,
                },
            ),
        }
    }
}

/// What the caller found in one subdirectory of the instances root: the
/// directory's name, the record text if its record file could be read, and
/// the files of its `Mods` folder.
pub struct InstanceDir {
    pub folder_name: String,
    pub record: Option<String>,
    pub mod_files: Vec<ModFile>,
}

pub open spec fn dir_view(d: InstanceDir) -> (Seq<char>, Option<Seq<char>>, Seq<
    (Seq<char>, Seq<u8>),
>) {
    (d.folder_name@, opt_view(d.record), d.mod_files@.map_values(|f: ModFile| mf_view(f)))
}

pub open spec fn inst_view(i: Instance) -> (
    Seq<char>,
    Seq<char>,
    Option<Seq<char>>,
    Option<Seq<char>>,
    Seq<(Seq<char>, Seq<char>, Seq<char>, Seq<char>, Seq<char>)>,
) {
    (
        i.folder_name@,
        i.name@,
        opt_view(i.icon),
        opt_view(i.game_exe_path),
        i.mods@.map_values(|m: ModInfo| mi_view(m)),
    )
}

/// Whether one subdirectory loads: its record file was read and parses.
pub open spec fn dir_valid(d: (Seq<char>, Option<Seq<char>>, Seq<(Seq<char>, Seq<u8>)>)) -> bool {
    d.1 is Some && spec_parse_record(d.1->Some_0) is Some
}

/// The instance one valid subdirectory loads to.
pub open spec fn spec_load_dir(d: (Seq<char>, Option<Seq<char>>, Seq<(Seq<char>, Seq<u8>)>)) -> (
    Seq<char>,
    Seq<char>,
    Option<Seq<char>>,
    Option<Seq<char>>,
    Seq<(Seq<char>, Seq<char>, Seq<char>, Seq<char>, Seq<char>)>,
) {
    let f = spec_parse_record(d.1->Some_0)->Some_0;
    (d.0, f.0, f.1, f.2, spec_load_mods(d.2))
}

/// What loading a whole directory listing yields: the instances of the
/// valid subdirectories, in listing order; the invalid ones are skipped.
pub open spec fn spec_load_all(
    dirs: Seq<(Seq<char>, Option<Seq<char>>, Seq<(Seq<char>, Seq<u8>)>)>,
) -> Seq<
    (
        Seq<char>,
        Seq<char>,
        Option<Seq<char>>,
        Option<Seq<char>>,
        Seq<(Seq<char>, Seq<char>, Seq<char>, Seq<char>, Seq<char>)>,
    ),
>
    decreases dirs.len(),
{
    if dirs.len() == 0 {
        Seq::empty()
    } else {
        (if dir_valid(dirs[0]) {
            seq![spec_load_dir(dirs[0])]
        } else {
            Seq::empty()
        }) + spec_load_all(dirs.skip(1))
    }
}

/// How many of the listed subdirectories are valid.
pub open spec fn count_valid(
    dirs: Seq<(Seq<char>, Option<Seq<char>>, Seq<(Seq<char>, Seq<u8>)>)>,
) -> nat
    decreases dirs.len(),
{
    if dirs.len() == 0 {
        0
    } else {
        (if dir_valid(dirs[0]) {
            1nat
        } else {
            0nat
        }) + count_valid(dirs.skip(1))
    }
}

proof fn lemma_load_all_push(
    dirs: Seq<(Seq<char>, Option<Seq<char>>, Seq<(Seq<char>, Seq<u8>)>)>,
    d: (Seq<char>, Option<Seq<char>>, Seq<(Seq<char>, Seq<u8>)>),
)
    ensures
        spec_load_all(dirs.push(d)) == spec_load_all(dirs) + (if dir_valid(d) {
            seq![spec_load_dir(d)]
        } else {
            Seq::empty()
        }),
    decreases dirs.len(),
{
    let step = (if dir_valid(d) {
        seq![spec_load_dir(d)]
    } else {
        Seq::<
            (
                Seq<char>,
                Seq<char>,
                Option<Seq<char>>,
                Option<Seq<char>>,
                Seq<(Seq<char>, Seq<char>, Seq<char>, Seq<char>, Seq<char>)>,
            ),
        >::empty()
    });
    if dirs.len() == 0 {
        reveal_with_fuel(spec_load_all, 3);
        assert(dirs.push(d) =~= seq![d]);
        assert(seq![d].skip(1) =~= Seq::<
            (Seq<char>, Option<Seq<char>>, Seq<(Seq<char>, Seq<u8>)>),
        >::empty());
        assert(spec_load_all(dirs.push(d)) =~= spec_load_all(dirs) + step);
    } else {
        assert(dirs.push(d).skip(1) =~= dirs.skip(1).push(d));
        lemma_load_all_push(dirs.skip(1), d);
        assert(spec_load_all(dirs.push(d)) =~= spec_load_all(dirs) + step);
    }
}

/// The law behind loading: a listing always loads without failing, and
/// yields exactly one instance per valid subdirectory — the invalid ones
/// are skipped, however many there are.
pub proof fn lemma_load_all_count(
    dirs: Seq<(Seq<char>, Option<Seq<char>>, Seq<(Seq<char>, Seq<u8>)>)>,
)
    ensures
        spec_load_all(dirs).len() == count_valid(dirs),
    decreases dirs.len(),
{
    if dirs.len() == 0 {
    } else {
        lemma_load_all_count(dirs.skip(1));
    }
}

/// Loads every subdirectory of the instances root that the caller listed,
/// in listing order, keeping those whose record parses and skipping the
/// rest.  The batch itself never fails: at worst it yields no instances.
pub fn load_instances(dirs: &Vec<InstanceDir>) -> (r: Vec<Instance>)
    ensures
        r@.map_values(|i: Instance| inst_view(i)) == spec_load_all(
            dirs@.map_values(|d: InstanceDir| dir_view(d)),
        ),
        r@.len() == count_valid(dirs@.map_values(|d: InstanceDir| dir_view(d))),
{
    let ghost dview = dirs@.map_values(|d: InstanceDir| dir_view(d));
    let mut out: Vec<Instance> = Vec::new();
    let mut i: usize = 0;
    proof {
        assert(out@.map_values(|x: Instance| inst_view(x)) =~= spec_load_all(dview.take(0))) by {
            assert(dview.take(0) =~= Seq::<
                (Seq<char>, Option<Seq<char>>, Seq<(Seq<char>, Seq<u8>)>),
            >::empty());
        }
    }
    while i < dirs.len()
        invariant
            i <= dirs@.len(),
            dview == dirs@.map_values(|d: InstanceDir| dir_view(d)),
            out@.map_values(|x: Instance| inst_view(x)) == spec_load_all(dview.take(i as int)),
        decreases dirs@.len() - i,
    {
        proof {
            lemma_load_all_push(dview.take(i as int), dview[i as int]);
            assert(dview.take(i + 1 as int) =~= dview.take(i as int).push(dview[i as int]));
            assert(dview[i as int] == dir_view(dirs@[i as int]));
        }
        let d = &dirs[i];
        let record = match &d.record {
            Some(t) => Some(t.as_str()),
            None => None,
        };
        match Instance::load(d.folder_name.as_str(), record, &d.mod_files) {
            Ok(inst) => {
                proof {
                    assert(out@.push(inst).map_values(|x: Instance| inst_view(x))
                        =~= out@.map_values(|x: Instance| inst_view(x)).push(inst_view(inst)));
                    assert(spec_load_all(dview.take(i as int)).push(inst_view(inst))
                        =~= spec_load_all(dview.take(i as int)) + seq![inst_view(inst)]);
                }
                out.push(inst);
            },
            Err(_) => {
                proof {
                    assert(spec_load_all(dview.take(i as int)) + Seq::<
                        (
                            Seq<char>,
                            Seq<char>,
                            Option<Seq<char>>,
                            Option<Seq<char>>,
                            Seq<(Seq<char>, Seq<char>, Seq<char>, Seq<char>, Seq<char>)>,
                        ),
                    >::empty() =~= spec_load_all(dview.take(i as int)));
                }
            },
        }
        i = i + 1;
    }
    proof {
        assert(dview.take(dirs@.len() as int) =~= dview);
        lemma_load_all_count(dview);
    }
    out
}

} // verus!
