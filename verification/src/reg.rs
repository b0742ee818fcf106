//! The registration plan: the registry entries each game needs, with
//! template values rendered against the installation's data. Writing the
//! entries into the system's store is the caller's side of the work; this
//! module decides exactly what is to be written.

use vstd::prelude::*;

verus! {

/// One registry value as the tables declare it: a literal string, a
/// template over the installation's data, or a number.
#[derive(Debug)]
pub enum RegValue {
    Str(String),
    Template(String),
    UInt(u32),
}

/// One named value under a key.
#[derive(Debug)]
pub struct RegEntry {
    pub value_name: String,
    pub value: RegValue,
}

/// One registry key and its values.
#[derive(Debug)]
pub struct RegKeyEntries {
    pub key: String,
    pub entries: Vec<RegEntry>,
}

/// One hive and the keys to write under it.
#[derive(Debug)]
pub struct RegHive {
    pub hive: String,
    pub keys: Vec<RegKeyEntries>,
}

/// Everything a game's registration writes.
#[derive(Debug)]
pub struct Regentries {
    pub hives: Vec<RegHive>,
}

/// A value with its template rendered: what is actually written.
#[derive(Debug)]
pub enum ResolvedRegValue {
    Str(String),
    UInt(u32),
}

/// What the handlebars crate renders a template to, against the four data
/// keys `install_path`, `install_path_shorthand`, `ergc` and `checksum`: a
/// function of the template and those four values alone.
pub uninterp spec fn rendered_of(
    tmpl: Seq<char>,
    install_path: Seq<char>,
    shorthand: Seq<char>,
    ergc: Seq<char>,
    checksum: Seq<char>,
) -> Seq<char>;

/// Whether the handlebars crate renders a template at all against those
/// four data keys: like the rendering itself, a function of the template
/// and the four values alone, since the registry is fresh and default.
pub uninterp spec fn renders_ok(
    tmpl: Seq<char>,
    install_path: Seq<char>,
    shorthand: Seq<char>,
    ergc: Seq<char>,
    checksum: Seq<char>,
) -> bool;

/// Relies on handlebars::Handlebars::render_template, with a data map
/// holding exactly the keys `install_path`, `install_path_shorthand`,
/// `ergc` and `checksum`: whether it succeeds, and what it returns, are
/// functions of the template and those four values alone.
#[verifier::external_body]
fn render_reg_template(
    tmpl: &str,
    install_path: &str,
    shorthand: &str,
    ergc: &str,
    checksum: &str,
) -> (r: Result<String, String>)
    ensures
        r is Ok == renders_ok(tmpl@, install_path@, shorthand@, ergc@, checksum@),
        r matches Ok(s) ==> s@ == rendered_of(tmpl@, install_path@, shorthand@, ergc@, checksum@),
{
    let mut data = std::collections::BTreeMap::new();
    data.insert("install_path", install_path.to_string());
    data.insert("install_path_shorthand", shorthand.to_string());
    data.insert("ergc", ergc.to_string());
    data.insert("checksum", checksum.to_string());
    handlebars::Handlebars::new().render_template(tmpl, &data).map_err(|e| e.to_string())
}

/// Whether one declared value renders: only templates can fail to.
pub open spec fn template_renders(
    v: RegValue,
    install_path: Seq<char>,
    shorthand: Seq<char>,
    ergc: Seq<char>,
    checksum: Seq<char>,
) -> bool {
    match v {
        RegValue::Template(t) => renders_ok(t@, install_path, shorthand, ergc, checksum),
        _ => true,
    }
}

/// Every template anywhere in the declared entries renders against the
/// installation's data.
pub open spec fn all_templates_render(
    entries: Regentries,
    install_path: Seq<char>,
    shorthand: Seq<char>,
    ergc: Seq<char>,
    checksum: Seq<char>,
) -> bool {
    forall|h: int, k: int, e: int|
        0 <= h < entries.hives@.len() && 0 <= k < entries.hives@[h].keys@.len() && 0 <= e
            < entries.hives@[h].keys@[k].entries@.len() ==> template_renders(
            (#[trigger] entries.hives@[h].keys@[k].entries@[e]).value,
            install_path,
            shorthand,
            ergc,
            checksum,
        )
}

/// What one declared value resolves to.
pub open spec fn resolved_value_spec(
    v: RegValue,
    install_path: Seq<char>,
    shorthand: Seq<char>,
    ergc: Seq<char>,
    checksum: Seq<char>,
    out: ResolvedRegValue,
) -> bool {
    match v {
        RegValue::Str(s) => out matches ResolvedRegValue::Str(o) && o@ == s@,
        RegValue::Template(t) => out matches ResolvedRegValue::Str(o) && o@ == rendered_of(
            t@,
            install_path,
            shorthand,
            ergc,
            checksum,
        ),
        RegValue::UInt(n) => out matches ResolvedRegValue::UInt(o) && o == n,
    }
}

/// Render the whole registration plan for one game: the same hives, keys
/// and value names as declared, each template resolved against the
/// installation's data. The plan is produced exactly when every declared
/// template renders; the first failing template fails the plan with its
/// message.
pub fn registry_plan(
    entries: &Regentries,
    install_path: &str,
    shorthand: &str,
    ergc: &str,
    checksum: &str,
) -> (r: Result<Vec<(String, Vec<(String, Vec<(String, ResolvedRegValue)>)>)>, String>)
    ensures
        r is Ok == all_templates_render(*entries, install_path@, shorthand@, ergc@, checksum@),
        r matches Ok(plan) ==> {
            &&& plan@.len() == entries.hives@.len()
            &&& forall|h: int|
                0 <= h < plan@.len() ==> {
                    &&& (#[trigger] plan@[h]).0@ == entries.hives@[h].hive@
                    &&& plan@[h].1@.len() == entries.hives@[h].keys@.len()
                    &&& forall|k: int|
                        0 <= k < plan@[h].1@.len() ==> {
                            &&& (#[trigger] plan@[h].1@[k]).0@ == entries.hives@[h].keys@[k].key@
                            &&& plan@[h].1@[k].1@.len()
                                == entries.hives@[h].keys@[k].entries@.len()
                            &&& forall|e: int|
                                0 <= e < plan@[h].1@[k].1@.len() ==> {
                                    &&& (#[trigger] plan@[h].1@[k].1@[e]).0@
                                        == entries.hives@[h].keys@[k].entries@[e].value_name@
                                    &&& resolved_value_spec(
                                        entries.hives@[h].keys@[k].entries@[e].value,
                                        install_path@,
                                        shorthand@,
                                        ergc@,
                                        checksum@,
                                        plan@[h].1@[k].1@[e].1,
                                    )
                                }
                        }
                }
        },
{
    let mut plan: Vec<(String, Vec<(String, Vec<(String, ResolvedRegValue)>)>)> = Vec::new();
    let nh = entries.hives.len();
    let mut h: usize = 0;
    while h < nh
        invariant
            h <= nh,
            nh == entries.hives@.len(),
            plan@.len() == h,
            forall|x: int, k2: int, e2: int|
                0 <= x < h && 0 <= k2 < entries.hives@[x].keys@.len() && 0 <= e2
                    < entries.hives@[x].keys@[k2].entries@.len() ==> template_renders(
                    (#[trigger] entries.hives@[x].keys@[k2].entries@[e2]).value,
                    install_path@,
                    shorthand@,
                    ergc@,
                    checksum@,
                ),
            forall|x: int|
                0 <= x < h ==> {
                    &&& (#[trigger] plan@[x]).0@ == entries.hives@[x].hive@
                    &&& plan@[x].1@.len() == entries.hives@[x].keys@.len()
                    &&& forall|k: int|
                        0 <= k < plan@[x].1@.len() ==> {
                            &&& (#[trigger] plan@[x].1@[k]).0@ == entries.hives@[x].keys@[k].key@
                            &&& plan@[x].1@[k].1@.len()
                                == entries.hives@[x].keys@[k].entries@.len()
                            &&& forall|e: int|
                                0 <= e < plan@[x].1@[k].1@.len() ==> {
                                    &&& (#[trigger] plan@[x].1@[k].1@[e]).0@
                                        == entries.hives@[x].keys@[k].entries@[e].value_name@
                                    &&& resolved_value_spec(
                                        entries.hives@[x].keys@[k].entries@[e].value,
                                        install_path@,
                                        shorthand@,
                                        ergc@,
                                        checksum@,
                                        plan@[x].1@[k].1@[e].1,
                                    )
                                }
                        }
                },
        decreases nh - h,
    {
        let hive = &entries.hives[h];
        let mut keys_out: Vec<(String, Vec<(String, ResolvedRegValue)>)> = Vec::new();
        let nk = hive.keys.len();
        let mut k: usize = 0;
        while k < nk
            invariant
                k <= nk,
                nk == hive.keys@.len(),
                keys_out@.len() == k,
                h < entries.hives@.len(),
                *hive == entries.hives@[h as int],
                forall|k2: int, e2: int|
                    0 <= k2 < k && 0 <= e2 < hive.keys@[k2].entries@.len() ==> template_renders(
                        (#[trigger] hive.keys@[k2].entries@[e2]).value,
                        install_path@,
                        shorthand@,
                        ergc@,
                        checksum@,
                    ),
                forall|y: int|
                    0 <= y < k ==> {
                        &&& (#[trigger] keys_out@[y]).0@ == hive.keys@[y].key@
                        &&& keys_out@[y].1@.len() == hive.keys@[y].entries@.len()
                        &&& forall|e: int|
                            0 <= e < keys_out@[y].1@.len() ==> {
                                &&& (#[trigger] keys_out@[y].1@[e]).0@
                                    == hive.keys@[y].entries@[e].value_name@
                                &&& resolved_value_spec(
                                    hive.keys@[y].entries@[e].value,
                                    install_path@,
                                    shorthand@,
                                    ergc@,
                                    checksum@,
                                    keys_out@[y].1@[e].1,
                                )
                            }
                    },
            decreases nk - k,
        {
            let key = &hive.keys[k];
            let mut values_out: Vec<(String, ResolvedRegValue)> = Vec::new();
            let ne = key.entries.len();
            let mut e: usize = 0;
            while e < ne
                invariant
                    e <= ne,
                    ne == key.entries@.len(),
                    values_out@.len() == e,
                    h < entries.hives@.len(),
                    *hive == entries.hives@[h as int],
                    k < hive.keys@.len(),
                    *key == hive.keys@[k as int],
                    forall|e2: int|
                        0 <= e2 < e ==> template_renders(
                            (#[trigger] key.entries@[e2]).value,
                            install_path@,
                            shorthand@,
                            ergc@,
                            checksum@,
                        ),
                    forall|z: int|
                        0 <= z < e ==> {
                            &&& (#[trigger] values_out@[z]).0@ == key.entries@[z].value_name@
                            &&& resolved_value_spec(
                                key.entries@[z].value,
                                install_path@,
                                shorthand@,
                                ergc@,
                                checksum@,
                                values_out@[z].1,
                            )
                        },
                decreases ne - e,
            {
                let entry = &key.entries[e];
                let resolved = match &entry.value {
                    RegValue::Str(s) => ResolvedRegValue::Str(s.clone()),
                    RegValue::UInt(n) => ResolvedRegValue::UInt(*n),
                    RegValue::Template(t) => {
                        match render_reg_template(t.as_str(), install_path, shorthand, ergc,
                            checksum) {
                            Ok(s) => ResolvedRegValue::Str(s),
                            Err(m) => {
                                proof {
                                    let ghost bad = entries.hives@[h as int].keys@[
                                        k as int].entries@[e as int];
                                    assert(bad.value matches RegValue::Template(tt) && !renders_ok(
                                        tt@,
                                        install_path@,
                                        shorthand@,
                                        ergc@,
                                        checksum@,
                                    ));
                                    if all_templates_render(
                                        *entries,
                                        install_path@,
                                        shorthand@,
                                        ergc@,
                                        checksum@,
                                    ) {
                                        assert(template_renders(
                                            bad.value,
                                            install_path@,
                                            shorthand@,
                                            ergc@,
                                            checksum@,
                                        ));
                                        assert(false);
                                    }
                                }
                                return Err(m);
                            },
                        }
                    },
                };
                proof {
                    assert(template_renders(
                        key.entries@[e as int].value,
                        install_path@,
                        shorthand@,
                        ergc@,
                        checksum@,
                    ));
                }
                values_out.push((entry.value_name.clone(), resolved));
                e = e + 1;
            }
            keys_out.push((key.key.clone(), values_out));
            k = k + 1;
        }
        plan.push((hive.hive.clone(), keys_out));
        h = h + 1;
    }
    proof {
        assert forall|x: int, k2: int, e2: int|
            0 <= x < entries.hives@.len() && 0 <= k2 < entries.hives@[x].keys@.len() && 0 <= e2
                < entries.hives@[x].keys@[k2].entries@.len() implies template_renders(
            (#[trigger] entries.hives@[x].keys@[k2].entries@[e2]).value,
            install_path@,
            shorthand@,
            ergc@,
            checksum@,
        ) by {}
        assert(all_templates_render(*entries, install_path@, shorthand@, ergc@, checksum@));
    }
    Ok(plan)
}

fn reg_str(name: &str, value: &str) -> (r: RegEntry)
    ensures
        r.value_name@ == name@,
        r.value matches RegValue::Str(s) && s@ == value@,
{
    RegEntry { value_name: name.to_owned(), value: RegValue::Str(value.to_owned()) }
}

fn reg_tmpl(name: &str, value: &str) -> (r: RegEntry)
    ensures
        r.value_name@ == name@,
        r.value matches RegValue::Template(s) && s@ == value@,
{
    RegEntry { value_name: name.to_owned(), value: RegValue::Template(value.to_owned()) }
}

fn reg_uint(name: &str, value: u32) -> (r: RegEntry)
    ensures
        r.value_name@ == name@,
        r.value matches RegValue::UInt(n) && n == value,
{
    RegEntry { value_name: name.to_owned(), value: RegValue::UInt(value) }
}

/// The registry entries of the base game: its installer data, its version
/// keys and its uninstall data, all under the one machine hive. The
/// numeric values are registry dwords read as such: version 1.0 is 65536
/// (hex 10000) and the English UK language id is 19 (hex 13).
pub fn bfme2_entries() -> (r: Regentries)
    ensures
        r.hives@.len() == 1,
        r.hives@[0].hive@ == "HKLM"@,
        r.hives@[0].keys@.len() == 3,
        r.hives@[0].keys@[0].entries@.len() == 7,
        r.hives@[0].keys@[1].entries@.len() == 3,
        r.hives@[0].keys@[2].entries@.len() == 14,
        r.hives@[0].keys@[0].entries@[1].value_name@ == "InstallPath"@,
        (r.hives@[0].keys@[0].entries@[1].value matches RegValue::Template(t) && t@
            == "{{ install_path }}"@),
        r.hives@[0].keys@[0].entries@[6].value_name@ == "ergc"@,
        (r.hives@[0].keys@[0].entries@[6].value matches RegValue::Template(t) && t@
            == "{{ ergc }}"@),
{
    let mut k0: Vec<RegEntry> = Vec::new();
    k0.push(reg_str("Language", "english"));
    k0.push(reg_tmpl("InstallPath", "{{ install_path }}"));
    k0.push(reg_uint("MapPackVersion", 65536));
    k0.push(reg_uint("UseLocalUserMaps", 0));
    k0.push(reg_str("UserDataLeafName", "BFME_{{ checksum }}"));
    k0.push(reg_uint("Version", 65536));
    k0.push(reg_tmpl("ergc", "{{ ergc }}"));
    let mut k1: Vec<RegEntry> = Vec::new();
    k1.push(reg_str("DisplayName", "The Battle for Middle-earth (tm) II"));
    k1.push(reg_uint("Language", 19));
    k1.push(reg_str("LanguageName", "English UK"));
    let mut k2: Vec<RegEntry> = Vec::new();
    k2.push(reg_str("CacheSize", "5499066368"));
    k2.push(reg_str("CD Drive", "D:\\"));
    k2.push(reg_str("DisplayName", "The Battle for Middle-earth (tm) II"));
    k2.push(
        reg_str(
            "Folder",
            "C:\\ProgramData\\Microsoft\\Windows\\Start Menu\\Programs\\Electronic Arts\\BFME2\\",
        ),
    );
    k2.push(reg_tmpl("Install Dir", "{{ install_path_shorthand }}"));
    k2.push(reg_str("Installed From", "D:\\"));
    k2.push(reg_str("Language", "English UK"));
    k2.push(reg_str("Locale", "en_uk"));
    k2.push(
        reg_str(
            "Patch URL",
            "http://transtest.ea.com/Electronic Arts/The Battle for Middle-earth 2/NorthAmerica",
        ),
    );
    k2.push(reg_str("Product GUID", "{2A9F95AB-65A3-432c-8631-B8BC5BF7477A}"));
    k2.push(reg_str("Region", "NorthAmerica"));
    k2.push(
        reg_str(
            "Registration",
            "SOFTWARE\\Electronic Arts\\Electronic Arts\\The Battle for Middle-earth II\\ergc",
        ),
    );
    k2.push(reg_str("Suppression Exe", "rtsi.exe"));
    k2.push(reg_str("SwapSize", "0"));
    let mut keys: Vec<RegKeyEntries> = Vec::new();
    keys.push(
        RegKeyEntries {
            key:
                "SOFTWARE\\WOW6432Node\\Electronic Arts\\Electronic Arts\\The Battle for Middle-earth II".to_owned(),
            entries: k0,
        },
    );
    keys.push(
        RegKeyEntries {
            key: "SOFTWARE\\WOW6432Node\\Electronic Arts\\The Battle for Middle-earth II\\1.0".to_owned(),
            entries: k1,
        },
    );
    keys.push(
        RegKeyEntries {
            key: "SOFTWARE\\WOW6432Node\\Electronic Arts\\The Battle for Middle-earth II".to_owned(),
            entries: k2,
        },
    );
    let mut hives: Vec<RegHive> = Vec::new();
    hives.push(RegHive { hive: "HKLM".to_owned(), keys });
    Regentries { hives }
}

/// The registry entries of the expansion, shaped like the base game's,
/// with its own names, versions and identifiers. As for the base game, the
/// numeric values are registry dwords: version 2.0 is 131072 (hex 20000).
pub fn rotwk_entries() -> (r: Regentries)
    ensures
        r.hives@.len() == 1,
        r.hives@[0].hive@ == "HKLM"@,
        r.hives@[0].keys@.len() == 3,
        r.hives@[0].keys@[0].entries@.len() == 7,
        r.hives@[0].keys@[1].entries@.len() == 3,
        r.hives@[0].keys@[2].entries@.len() == 14,
        r.hives@[0].keys@[0].entries@[1].value_name@ == "InstallPath"@,
        (r.hives@[0].keys@[0].entries@[1].value matches RegValue::Template(t) && t@
            == "{{ install_path }}"@),
        r.hives@[0].keys@[0].entries@[6].value_name@ == "ergc"@,
        (r.hives@[0].keys@[0].entries@[6].value matches RegValue::Template(t) && t@
            == "{{ ergc }}"@),
{
    let mut k0: Vec<RegEntry> = Vec::new();
    k0.push(reg_str("Language", "english"));
    k0.push(reg_tmpl("InstallPath", "{{ install_path }}"));
    k0.push(reg_uint("MapPackVersion", 131072));
    k0.push(reg_uint("UseLocalUserMaps", 0));
    k0.push(
        reg_str("UserDataLeafName", "My The Lord of the Rings, The Rise of the Witch-king Files"),
    );
    k0.push(reg_uint("Version", 131072));
    k0.push(reg_tmpl("ergc", "{{ ergc }}"));
    let mut k1: Vec<RegEntry> = Vec::new();
    k1.push(reg_str("DisplayName", "The Lord of the Rings, The Rise of the Witch-king"));
    k1.push(reg_uint("Language", 19));
    k1.push(reg_str("LanguageName", "English UK"));
    let mut k2: Vec<RegEntry> = Vec::new();
    k2.push(reg_str("CacheSize", "3139187712"));
    k2.push(reg_str("CD Drive", "D:\\"));
    k2.push(reg_str("DisplayName", "The Lord of the Rings, The Rise of the Witch-king"));
    k2.push(
        reg_str(
            "Folder",
            "C:\\ProgramData\\Microsoft\\Windows\\Start Menu\\Programs\\Electronic Arts\\ROTWK\\",
        ),
    );
    k2.push(reg_tmpl("Install Dir", "{{ install_path_shorthand }}"));
    k2.push(reg_str("Installed From", "D:\\"));
    k2.push(reg_str("Language", "English UK"));
    k2.push(reg_str("Locale", "en_uk"));
    k2.push(
        reg_str(
            "Patch URL",
            "http://transtest.ea.com/Electronic Arts/The Battle for Middle-earth 2/NorthAmerica",
        ),
    );
    k2.push(reg_str("Product GUID", "{B931FB80-537A-4600-00AD-AC5DEDB6C25B}"));
    k2.push(reg_str("Region", "NorthAmerica"));
    k2.push(
        reg_str(
            "Registration",
            "SOFTWARE\\Electronic Arts\\Electronic Arts\\The Lord of the Rings, The Rise of the Witch-king\\ergc",
        ),
    );
    k2.push(reg_str("Suppression Exe", "rtsi.exe"));
    k2.push(reg_str("SwapSize", "0"));
    let mut keys: Vec<RegKeyEntries> = Vec::new();
    keys.push(
        RegKeyEntries {
            key:
                "SOFTWARE\\WOW6432Node\\Electronic Arts\\Electronic Arts\\The Lord of the Rings, The Rise of the Witch-king".to_owned(),
            entries: k0,
        },
    );
    keys.push(
        RegKeyEntries {
            key:
                "SOFTWARE\\WOW6432Node\\Electronic Arts\\The Lord of the Rings, The Rise of the Witch-king\\1.0".to_owned(),
            entries: k1,
        },
    );
    keys.push(
        RegKeyEntries {
            key:
                "SOFTWARE\\WOW6432Node\\Electronic Arts\\The Lord of the Rings, The Rise of the Witch-king".to_owned(),
            entries: k2,
        },
    );
    let mut hives: Vec<RegHive> = Vec::new();
    hives.push(RegHive { hive: "HKLM".to_owned(), keys });
    Regentries { hives }
}

} // verus!
