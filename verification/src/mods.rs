//! The mod scanner: reading mod metadata out of zip archives.
//!
//! A mod is a zip archive inside an instance's `Mods` folder.  Its metadata
//! lives in a `modinfo.json` entry written in the relaxed JSON dialect of
//! `crate::relaxed_json`, with a fixed priority list of accepted spellings
//! for each field.  A file that is no archive, or an archive without the
//! entry, still yields a record with empty fields (so the archive is
//! listed); an entry that cannot be read or parsed drops that one archive
//! from the scan.

use crate::relaxed_json::{
    lemma_lookup_absent_push, lookup, lookup_first, lookup_idx, pairs_view, parse_object, spec_parse_object, FieldVal, Pair, PairVal,
};
use crate::text::chars_of;
use vstd::prelude::*;

verus! {

/// One mod archive's metadata, as shown in the instance view.  `zip_name`
/// is the archive's own file name; the rest comes from its metadata entry
/// and stays empty where the archive offers none.
#[derive(Debug)]
pub struct ModInfo {
    pub zip_name: String,
    pub mod_id: String,
    pub name: String,
    pub description: String,
    pub version: String,
}

/// Why one archive yielded no metadata record.
#[derive(Debug)]
pub enum ModError {
    /// The metadata entry exists but could not be read out of the archive.
    ZipParseError,
    /// The metadata entry was read but does not parse to the schema.
    InfoParseError,
}

/// One file of a `Mods` folder, as the caller read it off disk: its file
/// name and its raw bytes.
pub struct ModFile {
    pub name: String,
    pub data: Vec<u8>,
}

pub open spec fn mf_view(f: ModFile) -> (Seq<char>, Seq<u8>) {
    (f.name@, f.data@)
}

pub open spec fn mi_view(m: ModInfo) -> (Seq<char>, Seq<char>, Seq<char>, Seq<char>, Seq<char>) {
    (m.zip_name@, m.mod_id@, m.name@, m.description@, m.version@)
}

/// What one lookup into a zip archive hands back.
pub enum ZipLookup {
    /// The bytes are not a readable zip archive.
    NotArchive,
    /// The archive holds no entry of the asked-for name.
    Missing,
    /// The entry exists but its content could not be read as text.
    Unreadable,
    /// The entry's content.
    Entry(String),
}

/// What looking entries up in an archive yields: `None` when the bytes are
/// no archive; otherwise, per entry name, the entry's text, or `None` for
/// an entry whose content cannot be read as text.  Names on which the
/// archive's lookup fails are absent from the map.
pub uninterp spec fn zip_entries(data: Seq<u8>) -> Option<Map<Seq<char>, Option<Seq<char>>>>;

/// Relies on `zip::ZipArchive::new` over an in-memory reader,
/// `ZipArchive::by_name`, and `std::io::Read::read_to_string` on the found
/// entry.  All three work on the given bytes and name alone, so their
/// combined outcome is named `zip_entries(data)`.
#[verifier::external_body]
fn zip_entry_text(data: &Vec<u8>, name: &str) -> (r: ZipLookup)
    ensures
        match zip_entries(data@) {
            None => r is NotArchive,
            Some(m) => if !m.contains_key(name@) {
                r is Missing
            } else {
                match m[name@] {
                    None => r is Unreadable,
                    Some(t) => r matches ZipLookup::Entry(s) && s@ == t,
                }
            },
        },
{
    let cursor = std::io::Cursor::new(data.as_slice());
    let mut archive = match zip::ZipArchive::new(cursor) {
        Ok(a) => a,
        Err(_) => return ZipLookup::NotArchive,
    };
    let mut entry = match archive.by_name(name) {
        Ok(e) => e,
        Err(_) => return ZipLookup::Missing,
    };
    let mut text = String::new();
    match std::io::Read::read_to_string(&mut entry, &mut text) {
        Ok(_) => ZipLookup::Entry(text),
        Err(_) => ZipLookup::Unreadable,
    }
}

/// The text of a field that may be absent: absent means empty.
pub open spec fn text_or_empty(v: Option<FieldVal>) -> Seq<char> {
    match v {
        Some(FieldVal::Text(t)) => t,
        _ => Seq::empty(),
    }
}

/// The metadata fields `(mod_id, name, description, version)` a metadata
/// text denotes.  `name` and `version` are required and must be strings;
/// `mod_id` and `description` default to empty but must be strings where
/// present.  Each field takes the first of its accepted key spellings that
/// is present.
pub open spec fn spec_mod_fields(text: Seq<char>) -> Option<
    (Seq<char>, Seq<char>, Seq<char>, Seq<char>),
> {
    match spec_parse_object(text) {
        None => None,
        Some(pairs) => {
            let nm = lookup_first(pairs, seq!["name"@, "Name"@]);
            let vr = lookup_first(pairs, seq!["version"@, "Version"@]);
            let id = lookup_first(pairs, seq!["modid"@, "ModID"@, "modId"@]);
            let ds = lookup_first(pairs, seq!["description"@, "Description"@]);
            if !(nm matches Some(FieldVal::Text(_))) {
                None
            } else if !(vr matches Some(FieldVal::Text(_))) {
                None
            } else if id matches Some(FieldVal::Other) {
                None
            } else if ds matches Some(FieldVal::Other) {
                None
            } else {
                Some((text_or_empty(id), text_or_empty(nm), text_or_empty(ds), text_or_empty(vr)))
            }
        },
    }
}

/// The alias law: a member list without any id member yet, extended by an
/// id member under any one of the accepted spellings, resolves the id field
/// to that member's value — every spelling fills the same field.
pub proof fn lemma_alias_spellings(
    pairs: Seq<(Seq<char>, FieldVal)>,
    spelling: Seq<char>,
    v: FieldVal,
)
    requires
        spelling == "modid"@ || spelling == "ModID"@ || spelling == "modId"@,
        lookup(pairs, "modid"@) is None,
        lookup(pairs, "ModID"@) is None,
        lookup(pairs, "modId"@) is None,
    ensures
        lookup_first(pairs.push((spelling, v)), seq!["modid"@, "ModID"@, "modId"@]) == Some(v),
{
    reveal_with_fuel(lookup_first, 5);
    reveal_strlit("modid");
    reveal_strlit("ModID");
    reveal_strlit("modId");
    assert("modid"@ != "ModID"@) by {
        assert("modid"@[0] == 'm');
        assert("ModID"@[0] == 'M');
    }
    assert("modid"@ != "modId"@) by {
        assert("modid"@[3] == 'i');
        assert("modId"@[3] == 'I');
    }
    assert("ModID"@ != "modId"@) by {
        assert("ModID"@[0] == 'M');
        assert("modId"@[0] == 'm');
    }
    lemma_lookup_absent_push(pairs, (spelling, v), "modid"@);
    lemma_lookup_absent_push(pairs, (spelling, v), "ModID"@);
    lemma_lookup_absent_push(pairs, (spelling, v), "modId"@);
    let keys = seq!["modid"@, "ModID"@, "modId"@];
    assert(keys[0] == "modid"@);
    assert(keys.skip(1) =~= seq!["ModID"@, "modId"@]);
    assert(seq!["ModID"@, "modId"@][0] == "ModID"@);
    assert(seq!["ModID"@, "modId"@].skip(1) =~= seq!["modId"@]);
    assert(seq!["modId"@][0] == "modId"@);
}

/// What scanning one file yields: a full record from its metadata entry; a
/// record with empty fields where the file is no archive or has no entry;
/// nothing where the entry cannot be read or parsed.
pub open spec fn spec_mod_outcome(name: Seq<char>, data: Seq<u8>) -> Option<
    (Seq<char>, Seq<char>, Seq<char>, Seq<char>, Seq<char>),
> {
    let empty = Seq::<char>::empty();
    match zip_entries(data) {
        None => Some((name, empty, empty, empty, empty)),
        Some(m) => if !m.contains_key("modinfo.json"@) {
            Some((name, empty, empty, empty, empty))
        } else {
            match m["modinfo.json"@] {
                None => None,
                Some(text) => match spec_mod_fields(text) {
                    None => None,
                    Some((id, nm, ds, vr)) => Some((name, id, nm, ds, vr)),
                },
            }
        },
    }
}

fn get_field2(pairs: &Vec<Pair>, k1: &str, k2: &str) -> (r: Option<PairVal>)
    ensures
        ({
            let looked = lookup_first(pairs_view(pairs@), seq![k1@, k2@]);
            match r {
                None => looked is None,
                Some(PairVal::Text(s)) => looked == Some(FieldVal::Text(s@)),
                Some(PairVal::Other) => looked == Some(FieldVal::Other),
            }
        }),
{
    proof {
        reveal_with_fuel(lookup_first, 4);
        assert(seq![k1@, k2@][0] == k1@);
        assert(seq![k1@, k2@].skip(1) =~= seq![k2@]);
        assert(seq![k2@][0] == k2@);
        assert(seq![k2@].skip(1) =~= Seq::<Seq<char>>::empty());
    }
    match lookup_idx(pairs, k1) {
        Some(t) => match &pairs[t].val {
            PairVal::Text(s) => Some(PairVal::Text(s.clone())),
            PairVal::Other => Some(PairVal::Other),
        },
        None => match lookup_idx(pairs, k2) {
            Some(t) => match &pairs[t].val {
                PairVal::Text(s) => Some(PairVal::Text(s.clone())),
                PairVal::Other => Some(PairVal::Other),
            },
            None => None,
        },
    }
}

fn get_field3(pairs: &Vec<Pair>, k1: &str, k2: &str, k3: &str) -> (r: Option<PairVal>)
    ensures
        ({
            let looked = lookup_first(pairs_view(pairs@), seq![k1@, k2@, k3@]);
            match r {
                None => looked is None,
                Some(PairVal::Text(s)) => looked == Some(FieldVal::Text(s@)),
                Some(PairVal::Other) => looked == Some(FieldVal::Other),
            }
        }),
{
    proof {
        reveal_with_fuel(lookup_first, 5);
        assert(seq![k1@, k2@, k3@][0] == k1@);
        assert(seq![k1@, k2@, k3@].skip(1) =~= seq![k2@, k3@]);
        assert(seq![k2@, k3@][0] == k2@);
        assert(seq![k2@, k3@].skip(1) =~= seq![k3@]);
        assert(seq![k3@][0] == k3@);
        assert(seq![k3@].skip(1) =~= Seq::<Seq<char>>::empty());
    }
    match lookup_idx(pairs, k1) {
        Some(t) => match &pairs[t].val {
            PairVal::Text(s) => Some(PairVal::Text(s.clone())),
            PairVal::Other => Some(PairVal::Other),
        },
        None => match lookup_idx(pairs, k2) {
            Some(t) => match &pairs[t].val {
                PairVal::Text(s) => Some(PairVal::Text(s.clone())),
                PairVal::Other => Some(PairVal::Other),
            },
            None => match lookup_idx(pairs, k3) {
                Some(t) => match &pairs[t].val {
                    PairVal::Text(s) => Some(PairVal::Text(s.clone())),
                    PairVal::Other => Some(PairVal::Other),
                },
                None => None,
            },
        },
    }
}

/// Scans one file of a `Mods` folder: a metadata record, or the reason the
/// file yields none.
pub fn mod_info_from_archive(zip_name: &str, data: &Vec<u8>) -> (r: Result<ModInfo, ModError>)
    ensures
        match r {
            Ok(m) => spec_mod_outcome(zip_name@, data@) == Some(mi_view(m)),
            Err(e) => {
                &&& spec_mod_outcome(zip_name@, data@) is None
                &&& zip_entries(data@) is Some
                &&& zip_entries(data@)->Some_0.contains_key("modinfo.json"@)
                &&& match zip_entries(data@)->Some_0["modinfo.json"@] {
                    None => e is ZipParseError,
                    Some(text) => e is InfoParseError && spec_mod_fields(text) is None,
                }
            },
        },
{
    match zip_entry_text(data, "modinfo.json") {
        ZipLookup::NotArchive => Ok(
            ModInfo {
                zip_name: zip_name.to_owned(),
                mod_id: String::new(),
                name: String::new(),
                description: String::new(),
                version: String::new(),
            },
        ),
        ZipLookup::Missing => Ok(
            ModInfo {
                zip_name: zip_name.to_owned(),
                mod_id: String::new(),
                name: String::new(),
                description: String::new(),
                version: String::new(),
            },
        ),
        ZipLookup::Unreadable => Err(ModError::ZipParseError),
        ZipLookup::Entry(text) => {
            let chars = chars_of(text.as_str());
            match parse_object(&chars) {
                None => Err(ModError::InfoParseError),
                Some(pairs) => {
                    let nm = get_field2(&pairs, "name", "Name");
                    let vr = get_field2(&pairs, "version", "Version");
                    let id = get_field3(&pairs, "modid", "ModID", "modId");
                    let ds = get_field2(&pairs, "description", "Description");
                    let name_s = match nm {
                        Some(PairVal::Text(s)) => s,
                        _ => {
                            return Err(ModError::InfoParseError);
                        },
                    };
                    let ver_s = match vr {
                        Some(PairVal::Text(s)) => s,
                        _ => {
                            return Err(ModError::InfoParseError);
                        },
                    };
                    let id_s = match id {
                        Some(PairVal::Text(s)) => s,
                        Some(PairVal::Other) => {
                            return Err(ModError::InfoParseError);
                        },
                        None => String::new(),
                    };
                    let ds_s = match ds {
                        Some(PairVal::Text(s)) => s,
                        Some(PairVal::Other) => {
                            return Err(ModError::InfoParseError);
                        },
                        None => String::new(),
                    };
                    Ok(
                        ModInfo {
                            zip_name: zip_name.to_owned(),
                            mod_id: id_s,
                            name: name_s,
                            description: ds_s,
                            version: ver_s,
                        },
                    )
                },
            }
        },
    }
}

/// What scanning a whole folder yields: the outcome of each file in order,
/// files whose metadata cannot be read or parsed left out.
pub open spec fn spec_load_mods(files: Seq<(Seq<char>, Seq<u8>)>) -> Seq<
    (Seq<char>, Seq<char>, Seq<char>, Seq<char>, Seq<char>),
>
    decreases files.len(),
{
    if files.len() == 0 {
        Seq::empty()
    } else {
        (match spec_mod_outcome(files[0].0, files[0].1) {
            Some(v) => seq![v],
            None => Seq::empty(),
        }) + spec_load_mods(files.skip(1))
    }
}

proof fn lemma_load_mods_push(files: Seq<(Seq<char>, Seq<u8>)>, f: (Seq<char>, Seq<u8>))
    ensures
        spec_load_mods(files.push(f)) == spec_load_mods(files) + (match spec_mod_outcome(
            f.0,
            f.1,
        ) {
            Some(v) => seq![v],
            None => Seq::empty(),
        }),
    decreases files.len(),
{
    let step = (match spec_mod_outcome(f.0, f.1) {
        Some(v) => seq![v],
        None => Seq::<(Seq<char>, Seq<char>, Seq<char>, Seq<char>, Seq<char>)>::empty(),
    });
    if files.len() == 0 {
        reveal_with_fuel(spec_load_mods, 3);
        assert(files.push(f) =~= seq![f]);
        assert(seq![f].skip(1) =~= Seq::<(Seq<char>, Seq<u8>)>::empty());
        assert(spec_load_mods(files.push(f)) =~= spec_load_mods(files) + step);
    } else {
        assert(files.push(f).skip(1) =~= files.skip(1).push(f));
        lemma_load_mods_push(files.skip(1), f);
        assert(spec_load_mods(files.push(f)) =~= spec_load_mods(files) + step);
    }
}

/// Scans the files of a `Mods` folder, in the order they were handed in.
/// Every file yields a record unless its metadata entry is unreadable or
/// malformed; those files are left out and the scan goes on.  A folder
/// with no files yields no records.
pub fn load_mods(files: &Vec<ModFile>) -> (r: Vec<ModInfo>)
    ensures
        r@.map_values(|m: ModInfo| mi_view(m)) == spec_load_mods(
            files@.map_values(|f: ModFile| mf_view(f)),
        ),
        files@.len() == 0 ==> r@.len() == 0,
{
    let ghost fview = files@.map_values(|f: ModFile| mf_view(f));
    let mut out: Vec<ModInfo> = Vec::new();
    let mut i: usize = 0;
    proof {
        assert(out@.map_values(|m: ModInfo| mi_view(m)) =~= spec_load_mods(
            fview.take(0),
        )) by {
            assert(fview.take(0) =~= Seq::<(Seq<char>, Seq<u8>)>::empty());
        }
    }
    while i < files.len()
        invariant
            i <= files@.len(),
            fview == files@.map_values(|f: ModFile| mf_view(f)),
            out@.map_values(|m: ModInfo| mi_view(m)) == spec_load_mods(fview.take(i as int)),
        decreases files@.len() - i,
    {
        proof {
            lemma_load_mods_push(fview.take(i as int), fview[i as int]);
            assert(fview.take(i + 1 as int) =~= fview.take(i as int).push(fview[i as int]));
            assert(fview[i as int] == mf_view(files@[i as int]));
        }
        match mod_info_from_archive(files[i].name.as_str(), &files[i].data) {
            Ok(m) => {
                proof {
                    assert(out@.push(m).map_values(|x: ModInfo| mi_view(x)) =~= out@.map_values(
                        |x: ModInfo| mi_view(x),
                    ).push(mi_view(m)));
                    assert(spec_load_mods(fview.take(i as int)).push(mi_view(m))
                        =~= spec_load_mods(fview.take(i as int)) + seq![mi_view(m)]);
                }
                out.push(m);
            },
            Err(_) => {
                proof {
                    assert(spec_load_mods(fview.take(i as int)) + Seq::<(
                        Seq<char>,
                        Seq<char>,
                        Seq<char>,
                        Seq<char>,
                        Seq<char>,
                    )>::empty() =~= spec_load_mods(fview.take(i as int)));
                }
            },
        }
        i = i + 1;
    }
    proof {
        assert(fview.take(files@.len() as int) =~= fview);
    }
    out
}

} // verus!
