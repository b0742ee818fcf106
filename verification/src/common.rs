//! Installation data: the two games, their attributes, the installation
//! record that the UI edits and the orchestrator reads, and the activation
//! code and resolution handling around it.

use vstd::prelude::*;

verus! {

use crate::checksums::digest_of;
use crate::text::{
    decimal_value, find_char, find_from, is_u32_numeral, lemma_find_char, parse_u32,
    string_from_chars,
};
use vstd::slice::slice_subrange;
use vstd::string::{StrSliceExecFns, StringExecFns};

/// The two installable games.
#[derive(Debug, Clone, Copy, PartialEq, Eq, Structural)]
pub enum Game {
    BFME2,
    ROTWK,
}

impl Game {
    /// Every game, in display order.
    pub fn all() -> (r: Vec<Game>)
        ensures
            r@ == seq![Game::BFME2, Game::ROTWK],
    {
        let mut r: Vec<Game> = Vec::new();
        r.push(Game::BFME2);
        r.push(Game::ROTWK);
        proof {
            assert(r@ =~= seq![Game::BFME2, Game::ROTWK]);
        }
        r
    }

    /// The short name used in titles and archive file names.
    pub fn name(&self) -> (r: String)
        ensures
            r@ == self.spec_name(),
    {
        match self {
            Game::BFME2 => "BFME2".to_owned(),
            Game::ROTWK => "ROTWK".to_owned(),
        }
    }

    /// The short name, in spec form.
    pub open spec fn spec_name(&self) -> Seq<char> {
        match self {
            Game::BFME2 => "BFME2"@,
            Game::ROTWK => "ROTWK"@,
        }
    }

    /// The lowercase short name used in user-data archive names and paths.
    pub fn name_lower(&self) -> (r: String)
        ensures
            r@ == self.spec_name_lower(),
    {
        match self {
            Game::BFME2 => "bfme2".to_owned(),
            Game::ROTWK => "rotwk".to_owned(),
        }
    }

    /// The lowercase short name, in spec form.
    pub open spec fn spec_name_lower(&self) -> Seq<char> {
        match self {
            Game::BFME2 => "bfme2"@,
            Game::ROTWK => "rotwk"@,
        }
    }
}

/// Progress events flowing from the extractor and the checksum pool to the
/// orchestrator, keyed by an opaque per-unit identifier at the channel.
#[derive(Debug, Clone)]
pub enum InstallationProgress {
    Started,
    Finished,
    ChecksumResult(String, String),
    Extracting(u32, String),
    Progressed(u32),
    Errored(String),
    Skipped,
}

/// The editable and displayed attributes of an installation.
#[derive(Debug, Clone, Copy, PartialEq, Eq, Structural)]
pub enum InstallationAttribute {
    Checksum,
    InstallPath,
    UserdataPath,
    ERGC,
    Resolution,
    InstallationSource,
}

impl InstallationAttribute {
    /// Every attribute, in display order.
    pub fn all() -> (r: Vec<InstallationAttribute>)
        ensures
            r@ == seq![
                InstallationAttribute::Checksum,
                InstallationAttribute::InstallPath,
                InstallationAttribute::UserdataPath,
                InstallationAttribute::ERGC,
                InstallationAttribute::Resolution,
                InstallationAttribute::InstallationSource,
            ],
    {
        let mut r: Vec<InstallationAttribute> = Vec::new();
        r.push(InstallationAttribute::Checksum);
        r.push(InstallationAttribute::InstallPath);
        r.push(InstallationAttribute::UserdataPath);
        r.push(InstallationAttribute::ERGC);
        r.push(InstallationAttribute::Resolution);
        r.push(InstallationAttribute::InstallationSource);
        proof {
            assert(r@ =~= seq![
                InstallationAttribute::Checksum,
                InstallationAttribute::InstallPath,
                InstallationAttribute::UserdataPath,
                InstallationAttribute::ERGC,
                InstallationAttribute::Resolution,
                InstallationAttribute::InstallationSource,
            ]);
        }
        r
    }

    /// The attribute's display title.
    pub fn title(&self) -> (r: String)
        ensures
            r@ == self.spec_title(),
    {
        match self {
            Self::Checksum => "Checksum".to_owned(),
            Self::InstallPath => "Install Path".to_owned(),
            Self::UserdataPath => "Userdata Directory".to_owned(),
            Self::ERGC => "Activation Code".to_owned(),
            Self::Resolution => "Resolution".to_owned(),
            Self::InstallationSource => "Install Source".to_owned(),
        }
    }

    /// The display title, in spec form.
    pub open spec fn spec_title(&self) -> Seq<char> {
        match self {
            Self::Checksum => "Checksum"@,
            Self::InstallPath => "Install Path"@,
            Self::UserdataPath => "Userdata Directory"@,
            Self::ERGC => "Activation Code"@,
            Self::Resolution => "Resolution"@,
            Self::InstallationSource => "Install Source"@,
        }
    }
}

/// `s` with every dash removed.
pub open spec fn without_dashes(s: Seq<char>) -> Seq<char>
    decreases s.len(),
{
    if s.len() == 0 {
        s
    } else if s[0] == '-' {
        without_dashes(s.drop_first())
    } else {
        seq![s[0]] + without_dashes(s.drop_first())
    }
}

proof fn lemma_without_dashes_push(s: Seq<char>, c: char)
    ensures
        without_dashes(s.push(c)) == if c == '-' {
            without_dashes(s)
        } else {
            without_dashes(s).push(c)
        },
    decreases s.len(),
{
    assert(s.push(c)[0] == if s.len() == 0 {
        c
    } else {
        s[0]
    });
    if s.len() == 0 {
        assert(s.push(c).drop_first() =~= s);
        assert(without_dashes(s) == s);
        if c == '-' {
            assert(without_dashes(s.push(c)) == without_dashes(s.push(c).drop_first()));
        } else {
            assert(without_dashes(s.push(c)) == seq![c] + without_dashes(s.push(c).drop_first()));
            assert(seq![c] + s =~= s.push(c));
            assert(without_dashes(s).push(c) =~= s.push(c));
        }
    } else {
        assert(s.push(c).drop_first() =~= s.drop_first().push(c));
        lemma_without_dashes_push(s.drop_first(), c);
        if s[0] == '-' {
            assert(without_dashes(s.push(c)) == without_dashes(s.push(c).drop_first()));
            assert(without_dashes(s) == without_dashes(s.drop_first()));
        } else {
            assert(without_dashes(s.push(c)) == seq![s[0]] + without_dashes(
                s.push(c).drop_first(),
            ));
            assert(without_dashes(s) == seq![s[0]] + without_dashes(s.drop_first()));
            if c != '-' {
                assert(seq![s[0]] + without_dashes(s.drop_first()).push(c) =~= (seq![s[0]]
                    + without_dashes(s.drop_first())).push(c));
            }
        }
    }
}

/// Remove every dash from a string.
pub fn remove_dashes(s: &str) -> (r: String)
    ensures
        r@ == without_dashes(s@),
{
    let cs = crate::text::chars_of(s);
    let n = cs.len();
    let mut r = String::new();
    let mut i: usize = 0;
    while i < n
        invariant
            i <= n,
            n == cs@.len(),
            cs@ == s@,
            r@ == without_dashes(s@.subrange(0, i as int)),
        decreases n - i,
    {
        let c = cs[i];
        if c != '-' {
            r.push(c);
        }
        proof {
            lemma_without_dashes_push(s@.subrange(0, i as int), s@[i as int]);
            assert(s@.subrange(0, i as int).push(s@[i as int]) =~= s@.subrange(0, i + 1));
        }
        i = i + 1;
    }
    proof {
        assert(s@.subrange(0, n as int) =~= s@);
    }
    r
}

/// `s` regrouped with a dash after every four characters; a final group of
/// fewer than four characters is left as it is.
pub open spec fn dashed(s: Seq<char>) -> Seq<char>
    decreases s.len(),
{
    if s.len() <= 4 {
        s
    } else {
        s.take(4) + seq!['-'] + dashed(s.skip(4))
    }
}

/// Format an activation code for display: strip any dashes it already has,
/// then insert one after every four characters.
pub fn format_ergc(ergc: &str) -> (r: String)
    ensures
        r@ == dashed(without_dashes(ergc@)),
{
    let stripped = remove_dashes(ergc);
    let cs = crate::text::chars_of(stripped.as_str());
    let n = cs.len();
    let mut r = String::new();
    proof {
        assert(cs@.skip(0) =~= cs@);
        assert(r@ + dashed(cs@) =~= dashed(cs@));
    }
    let mut i: usize = 0;
    while i < n
        invariant
            i <= n,
            n == cs@.len(),
            cs@ == without_dashes(ergc@),
            r@ + dashed(cs@.skip(i as int)) == dashed(cs@),
        decreases n - i,
    {
        let j = if n - i < 4 {
            n
        } else {
            i + 4
        };
        let ghost suffix = cs@.skip(i as int);
        let ghost r0 = r@;
        proof {
            assert(r0 + cs@.subrange(i as int, i as int) =~= r0);
        }
        let mut k = i;
        while k < j
            invariant
                i <= k <= j <= n,
                n == cs@.len(),
                r@ == r0 + cs@.subrange(i as int, k as int),
            decreases j - k,
        {
            r.push(cs[k]);
            proof {
                assert((r0 + cs@.subrange(i as int, k as int)).push(cs@[k as int]) =~= r0
                    + cs@.subrange(i as int, k + 1));
            }
            k = k + 1;
        }
        if j < n {
            r.push('-');
        }
        proof {
            if suffix.len() <= 4 {
                assert(j == n);
                assert(dashed(suffix) == suffix);
                assert(cs@.subrange(i as int, n as int) =~= suffix);
                assert(r@ =~= r0 + dashed(suffix));
                assert(r@ + dashed(cs@.skip(n as int)) =~= r0 + dashed(suffix));
            } else {
                assert(j == i + 4);
                assert(dashed(suffix) == suffix.take(4) + seq!['-'] + dashed(suffix.skip(4)));
                assert(suffix.skip(4) =~= cs@.skip(i + 4));
                assert(suffix.take(4) =~= cs@.subrange(i as int, j as int));
                assert(r@ =~= (r0 + cs@.subrange(i as int, j as int)).push('-'));
                assert(r@ + dashed(cs@.skip(j as int)) =~= r0 + dashed(suffix));
            }
            assert(r0 + dashed(suffix) == dashed(cs@));
        }
        i = j;
    }
    proof {
        assert(cs@.skip(n as int).len() == 0);
        assert(dashed(cs@.skip(n as int)) == cs@.skip(n as int));
        assert(r@ + cs@.skip(n as int) =~= r@);
    }
    r
}

/// `s` with a zero-width space after every character, so that long values
/// can wrap anywhere when displayed.
pub open spec fn breakable(s: Seq<char>) -> Seq<char>
    decreases s.len(),
{
    if s.len() == 0 {
        s
    } else {
        seq![s[0], '\u{200B}'] + breakable(s.drop_first())
    }
}

/// Interleave a zero-width space after every character of a value.
pub fn to_breakable(value: String) -> (r: String)
    ensures
        r@ == breakable(value@),
{
    let cs = crate::text::chars_of(value.as_str());
    let n = cs.len();
    let mut r = String::new();
    proof {
        assert(cs@.skip(0) =~= cs@);
        assert(r@ + breakable(cs@) =~= breakable(cs@));
    }
    let mut i: usize = 0;
    while i < n
        invariant
            i <= n,
            n == cs@.len(),
            cs@ == value@,
            r@ + breakable(cs@.skip(i as int)) == breakable(cs@),
        decreases n - i,
    {
        let ghost r0 = r@;
        let ghost suffix = cs@.skip(i as int);
        r.push(cs[i]);
        r.push('\u{200B}');
        proof {
            assert(suffix[0] == cs@[i as int]);
            assert(suffix.drop_first() =~= cs@.skip(i + 1));
            assert(breakable(suffix) == seq![cs@[i as int], '\u{200B}'] + breakable(
                cs@.skip(i + 1),
            ));
            assert(r@ =~= r0.push(cs@[i as int]).push('\u{200B}'));
            assert(r@ + breakable(cs@.skip(i + 1)) =~= r0 + breakable(suffix));
        }
        i = i + 1;
    }
    proof {
        assert(cs@.skip(n as int).len() == 0);
        assert(breakable(cs@.skip(n as int)) == cs@.skip(n as int));
        assert(r@ + cs@.skip(n as int) =~= r@);
    }
    r
}

/// The emoji encoding of a byte sequence, as the base_emoji crate renders
/// it: a function of the bytes alone.
pub uninterp spec fn emoji_of(bytes: Seq<u8>) -> Seq<char>;

/// Relies on base_emoji::to_string: one emoji per byte, looked up in a fixed
/// table that covers every byte value; deterministic in the bytes alone.
#[verifier::external_body]
fn emoji_encode(bytes: &[u8]) -> (r: String)
    ensures
        r@ == emoji_of(bytes@),
{
    base_emoji::to_string(bytes)
}

/// Each byte reduced modulo 255, as the emoji hash does before encoding.
pub open spec fn mod_255(bytes: Seq<u8>) -> Seq<u8> {
    bytes.map_values(|b: u8| (b % 0xff) as u8)
}

/// The emoji rendering of a value's MD5 digest, used to compare two
/// machines' settings at a glance.
pub fn str_to_emoji_hash(value: String) -> (r: Result<String, String>)
    ensures
        r matches Ok(s) && s@ == emoji_of(
            mod_255(crate::checksums::md5_spec(vstd::utf8::encode_utf8(value@))),
        ),
{
    let digest = match crate::checksums::md5sum(value.as_str().as_bytes()) {
        Ok(d) => d,
        Err(_) => {
            proof {
                assert(false);
            }
            vstd::pervasive::unreached()
        },
    };
    let n = digest.len();
    let mut mapped: Vec<u8> = Vec::new();
    let mut i: usize = 0;
    while i < n
        invariant
            i <= n,
            n == digest@.len(),
            mapped@ == mod_255(digest@.subrange(0, i as int)),
        decreases n - i,
    {
        mapped.push(digest[i] % 0xff);
        proof {
            assert(mapped@ =~= mod_255(digest@.subrange(0, i + 1)));
        }
        i = i + 1;
    }
    proof {
        assert(digest@.subrange(0, n as int) =~= digest@);
    }
    Ok(emoji_encode(mapped.as_slice()))
}

/// A character an activation code may hold: an uppercase letter or a digit.
pub open spec fn is_ergc_char(c: char) -> bool {
    ('A' as int <= c as int <= 'Z' as int) || ('0' as int <= c as int <= '9' as int)
}

/// `s` is exactly `n` groups of four code characters, each group optionally
/// followed by one dash.
pub open spec fn ergc_groups(s: Seq<char>, n: nat) -> bool
    decreases n,
{
    if n == 0 {
        s.len() == 0
    } else {
        s.len() >= 4 && (forall|i: int| 0 <= i < 4 ==> is_ergc_char(#[trigger] s[i])) && (
        ergc_groups(s.skip(4), (n - 1) as nat) || (s.len() >= 5 && s[4] == '-' && ergc_groups(
            s.skip(5),
            (n - 1) as nat,
        )))
    }
}

/// The shape of a full activation code: five groups of four characters A-Z
/// or 0-9, each group optionally followed by one dash.
pub open spec fn ergc_shape(s: Seq<char>) -> bool {
    ergc_groups(s, 5)
}

/// Relies on regex::Regex (new and is_match) compiling the fixed pattern
/// `^([A-Z0-9]{4}-?){5}$`: whether the whole string is five groups of four
/// characters A-Z or 0-9, each group optionally followed by one dash.
#[verifier::external_body]
fn ergc_matches(s: &str) -> (r: bool)
    ensures
        r == ergc_shape(s@),
{
    match regex::Regex::new(r"^([A-Z0-9]{4}-?){5}$") {
        Ok(re) => re.is_match(s),
        Err(_) => false,
    }
}

/// Relies on dirs::home_dir: the platform's home directory as the system
/// reports it, when there is one and its path is valid Unicode.
#[verifier::external_body]
fn home_dir_string() -> (r: Option<String>) {
    dirs::home_dir().and_then(|p| p.to_str().map(|s| s.to_owned()))
}

/// The roaming application-data directory under a home directory, with the
/// given leaf directory name.
pub fn appdata_roaming(home: &str, leaf: &str) -> (r: String)
    ensures
        r@ == home@ + "/AppData/Roaming/"@ + leaf@,
{
    let mut r = home.to_owned();
    r.append("/AppData/Roaming/");
    r.append(leaf);
    r
}

/// The decimal `WIDTHxHEIGHT` rendering of a resolution.
pub open spec fn resolution_text(res: (u32, u32)) -> Seq<char> {
    crate::text::dec_str(res.0 as int) + seq!['x'] + crate::text::dec_str(res.1 as int)
}

/// What a resolution string parses to: the text up to the first `x` and the
/// text after it, both read as plain decimal numbers in range.
pub open spec fn parsed_resolution(s: Seq<char>) -> Option<(int, int)> {
    let f = find_char(s, 'x');
    if f == -1 {
        None
    } else if is_u32_numeral(s.take(f)) && is_u32_numeral(s.skip(f + 1)) {
        Some((decimal_value(s.take(f)), decimal_value(s.skip(f + 1))))
    } else {
        None
    }
}

/// One game installation as the manager sees it: where it lives, its
/// identity, and what state its pipeline is in.
#[derive(Debug)]
pub struct Installation {
    pub game: Game,
    pub path: String,
    pub userdata_path: String,
    pub checksum: String,
    pub ergc: String,
    pub resolution: (u32, u32),
    pub install_source: Option<String>,
    pub is_complete: bool,
    pub in_progress: bool,
}

impl Installation {
    /// The defaults for a fresh, not yet installed game; the install source
    /// is the directory the caller was started from, handed in by the
    /// caller.
    pub fn defaults(game: Game, install_source: Option<String>) -> (r: Installation)
        ensures
            r.game == game,
            r.path@ == "C:\\Pgroam Files (x86)\\Electronic Arts\\"@ + game.spec_name(),
            r.userdata_path@.len() == 0,
            r.checksum@.len() == 0,
            r.ergc@.len() == 0,
            r.resolution == (1024u32, 768u32),
            r.install_source == install_source,
            !r.is_complete,
            !r.in_progress,
    {
        let mut path = "C:\\Pgroam Files (x86)\\Electronic Arts\\".to_owned();
        let name = game.name();
        path.append(name.as_str());
        Installation {
            game,
            path,
            userdata_path: String::new(),
            checksum: String::new(),
            ergc: String::new(),
            resolution: (1024, 768),
            install_source,
            is_complete: false,
            in_progress: false,
        }
    }

    /// Take over every persisted field of another record; only the
    /// transient in-progress flag keeps its value.
    pub fn update_from(&mut self, other: Installation)
        ensures
            final (self).game == other.game,
            final (self).path == other.path,
            final (self).install_source == other.install_source,
            final (self).userdata_path == other.userdata_path,
            final (self).checksum == other.checksum,
            final (self).ergc == other.ergc,
            final (self).resolution == other.resolution,
            final (self).is_complete == other.is_complete,
            final (self).in_progress == old(self).in_progress,
    {
        self.game = other.game;
        self.path = other.path;
        self.install_source = other.install_source;
        self.userdata_path = other.userdata_path;
        self.checksum = other.checksum;
        self.ergc = other.ergc;
        self.resolution = other.resolution;
        self.is_complete = other.is_complete;
    }

    /// Where this installation's user data lives: the recorded directory if
    /// one is known; otherwise, for an identified installation, the roaming
    /// directory named after the game and checksum under the home directory
    /// the system reports — `None` when there is no way to tell.
    pub fn get_userdata_path(&self) -> (r: Option<String>)
        ensures
            self.userdata_path@.len() > 0 ==> (r matches Some(s) && s@ == self.userdata_path@),
            self.userdata_path@.len() == 0 && self.checksum@.len() == 0 ==> r is None,
            self.userdata_path@.len() == 0 && self.checksum@.len() > 0 ==> match r {
                Some(s) => exists|h: Seq<char>|
                    s@ == h + "/AppData/Roaming/"@ + (self.game.spec_name_lower() + "_"@
                        + self.checksum@),
                None => true,
            },
    {
        if !self.userdata_path.as_str().is_empty() {
            return Some(self.userdata_path.clone());
        }
        if self.checksum.as_str().is_empty() {
            return None;
        }
        match home_dir_string() {
            None => None,
            Some(home) => {
                let mut leaf = self.game.name_lower();
                leaf.append("_");
                leaf.append(self.checksum.as_str());
                let ghost home_view = home@;
                let s = appdata_roaming(home.as_str(), leaf.as_str());
                proof {
                    assert(s@ == home_view + "/AppData/Roaming/"@ + (self.game.spec_name_lower()
                        + "_"@ + self.checksum@));
                }
                Some(s)
            },
        }
    }

    /// Set the resolution from a `WIDTHxHEIGHT` string. A string that does
    /// not parse leaves the record unchanged; either way the call succeeds,
    /// as an unparsable value is only reported, never an error.
    pub fn set_resolution(&mut self, res: String) -> (r: Result<(), String>)
        ensures
            r is Ok,
            match parsed_resolution(res@) {
                Some(xy) => final (self).resolution.0 == xy.0 && final (self).resolution.1 == xy.1,
                None => final (self).resolution == old(self).resolution,
            },
            final (self).game == old(self).game,
            final (self).path == old(self).path,
            final (self).install_source == old(self).install_source,
            final (self).userdata_path == old(self).userdata_path,
            final (self).checksum == old(self).checksum,
            final (self).ergc == old(self).ergc,
            final (self).is_complete == old(self).is_complete,
            final (self).in_progress == old(self).in_progress,
    {
        let cs = crate::text::chars_of(res.as_str());
        let n = cs.len();
        match find_from(cs.as_slice(), 0, 'x') {
            None => {
                proof {
                    assert(cs@.subrange(0, n as int) =~= res@);
                }
                Ok(())
            },
            Some(f) => {
                proof {
                    assert(cs@.subrange(0, n as int) =~= res@);
                    assert(find_char(res@, 'x') == f);
                }
                let left = string_from_chars(slice_subrange(cs.as_slice(), 0, f));
                let right = string_from_chars(slice_subrange(cs.as_slice(), f + 1, n));
                proof {
                    assert(left@ =~= res@.take(f as int));
                    assert(right@ =~= res@.skip(f as int + 1));
                }
                match (parse_u32(left.as_str()), parse_u32(right.as_str())) {
                    (Some(x), Some(y)) => {
                        self.resolution = (x, y);
                        Ok(())
                    },
                    _ => Ok(()),
                }
            },
        }
    }

    /// The resolution as a pair.
    pub fn get_resolution(&self) -> (r: (u32, u32))
        ensures
            r == self.resolution,
    {
        self.resolution
    }

    /// The resolution as a `WIDTHxHEIGHT` string.
    pub fn get_resolution_string(&self) -> (r: String)
        ensures
            r@ == resolution_text(self.resolution),
    {
        let mut r = crate::text::u32_to_string(self.resolution.0);
        r.push('x');
        let right = crate::text::u32_to_string(self.resolution.1);
        r.append(right.as_str());
        proof {
            assert(crate::text::dec_str(self.resolution.0 as int).push('x') =~= crate::text::dec_str(
                self.resolution.0 as int,
            ) + seq!['x']);
        }
        r
    }

    /// The displayed value of one attribute.
    pub fn get_attribute(&self, attr: &InstallationAttribute) -> (r: String)
        ensures
            attr is Checksum ==> r@ == self.checksum@,
            attr is InstallPath ==> r@ == self.path@,
            attr is ERGC ==> r@ == dashed(without_dashes(self.ergc@)),
            attr is Resolution ==> r@ == resolution_text(self.resolution),
            attr is InstallationSource ==> match self.install_source {
                Some(s) => r@ == s@,
                None => r@ == Seq::<char>::empty(),
            },
            attr is UserdataPath ==> {
                &&& self.userdata_path@.len() > 0 ==> r@ == self.userdata_path@
                &&& self.userdata_path@.len() == 0 && self.checksum@.len() == 0 ==> r@
                    == "<will be generated>"@
                &&& self.userdata_path@.len() == 0 && self.checksum@.len() > 0 ==> (r@
                    == "<will be generated>"@ || exists|h: Seq<char>|
                    r@ == h + "/AppData/Roaming/"@ + (self.game.spec_name_lower() + "_"@
                        + self.checksum@))
            },
    {
        match attr {
            InstallationAttribute::Checksum => self.checksum.clone(),
            InstallationAttribute::InstallPath => self.path.clone(),
            InstallationAttribute::UserdataPath => {
                match self.get_userdata_path() {
                    Some(s) => s,
                    None => "<will be generated>".to_owned(),
                }
            },
            InstallationAttribute::ERGC => format_ergc(self.ergc.as_str()),
            InstallationAttribute::Resolution => self.get_resolution_string(),
            InstallationAttribute::InstallationSource => {
                match &self.install_source {
                    Some(s) => s.clone(),
                    None => String::new(),
                }
            },
        }
    }

    /// Store one attribute's new value: the checksum, path and source are
    /// taken as given, an activation code is stored without its dashes, a
    /// resolution goes through `set_resolution`, and the user-data path is
    /// never stored directly.
    pub fn set_attribute(&mut self, attr: &InstallationAttribute, value: String) -> (r: Result<
        (),
        String,
    >)
        ensures
            r is Ok,
            final (self).game == old(self).game,
            final (self).userdata_path == old(self).userdata_path,
            final (self).is_complete == old(self).is_complete,
            final (self).in_progress == old(self).in_progress,
            attr is Checksum ==> final (self).checksum@ == value@ && final (self).path == old(
                self,
            ).path && final (self).ergc == old(self).ergc && final (self).resolution == old(
                self,
            ).resolution && final (self).install_source == old(self).install_source,
            attr is InstallPath ==> final (self).path@ == value@ && final (self).checksum == old(
                self,
            ).checksum && final (self).ergc == old(self).ergc && final (self).resolution == old(
                self,
            ).resolution && final (self).install_source == old(self).install_source,
            attr is UserdataPath ==> *final (self) == *old(self),
            attr is ERGC ==> final (self).ergc@ == without_dashes(value@) && final (self).path
                == old(self).path && final (self).checksum == old(self).checksum && final (
            self).resolution == old(self).resolution && final (self).install_source == old(
                self,
            ).install_source,
            attr is Resolution ==> (match parsed_resolution(value@) {
                Some(xy) => final (self).resolution.0 == xy.0 && final (self).resolution.1 == xy.1,
                None => final (self).resolution == old(self).resolution,
            }) && final (self).path == old(self).path && final (self).checksum == old(
                self,
            ).checksum && final (self).ergc == old(self).ergc && final (self).install_source
                == old(self).install_source,
            attr is InstallationSource ==> ({
                &&& (final (self).install_source matches Some(s) && s@ == value@)
                &&& final (self).path == old(self).path
                &&& final (self).checksum == old(self).checksum
                &&& final (self).ergc == old(self).ergc
                &&& final (self).resolution == old(self).resolution
            }),
    {
        match attr {
            InstallationAttribute::Checksum => {
                self.checksum = value;
            },
            InstallationAttribute::InstallPath => {
                self.path = value;
            },
            InstallationAttribute::UserdataPath => {
            },
            InstallationAttribute::ERGC => {
                self.ergc = remove_dashes(value.as_str());
            },
            InstallationAttribute::Resolution => {
                let result = self.set_resolution(value);
                match result {
                    Ok(_) => {
                    },
                    Err(_) => {
                        proof {
                            assert(false);
                        }
                    },
                }
            },
            InstallationAttribute::InstallationSource => {
                self.install_source = Some(value);
            },
        }
        Ok(())
    }

    /// The combined identity of a pair of installations. The base game's
    /// checksum stands alone; the expansion's is combined with the base
    /// game's by digesting the two hex digests run together, and is only
    /// available once both are known.
    pub fn get_full_checksum(&self, other: Option<&Installation>) -> (r: Option<String>)
        ensures
            self.game is BFME2 ==> (r matches Some(s) && s@ == self.checksum@),
            self.game is ROTWK ==> (match other {
                None => r is None,
                Some(o) => if o.checksum@.len() == 0 {
                    r is None
                } else {
                    r matches Some(s) && s@ == digest_of(
                        vstd::utf8::encode_utf8(o.checksum@ + self.checksum@),
                    )
                },
            }),
    {
        match (self.game, other) {
            (Game::BFME2, _) => Some(self.checksum.clone()),
            (Game::ROTWK, None) => None,
            (Game::ROTWK, Some(other_inst)) => {
                if other_inst.checksum.as_str().is_empty() {
                    None
                } else {
                    let mut combined = other_inst.checksum.clone();
                    combined.append(self.checksum.as_str());
                    match crate::checksums::calculate_hash(combined.as_str().as_bytes()) {
                        Ok(s) => Some(s),
                        Err(_) => {
                            proof {
                                assert(false);
                            }
                            vstd::pervasive::unreached()
                        },
                    }
                }
            },
        }
    }

    /// Whether an installation can start: a source directory is recorded,
    /// it exists on disk with the first volume in it — the caller probes the
    /// file system for those two facts — and the activation code has the
    /// full five-group shape.
    pub fn is_installation_ready(&self, source_is_dir: bool, vol0_exists: bool) -> (r: bool)
        ensures
            r == (self.install_source is Some && source_is_dir && vol0_exists && ergc_shape(
                dashed(without_dashes(self.ergc@)),
            )),
    {
        let has_source = self.install_source.is_some();
        let formatted = format_ergc(self.ergc.as_str());
        has_source && source_is_dir && vol0_exists && ergc_matches(formatted.as_str())
    }
}

/// `s` begins with `p`.
pub open spec fn starts_with(s: Seq<char>, p: Seq<char>) -> bool {
    s.len() >= p.len() && s.take(p.len() as int) == p
}

/// `l` split at every space.
pub open spec fn tokens_of(l: Seq<char>) -> Seq<Seq<char>>
    decreases l.len(),
    via tokens_of_decreases
{
    let f = find_char(l, ' ');
    if f == -1 {
        seq![l]
    } else {
        seq![l.take(f)] + tokens_of(l.skip(f + 1))
    }
}

#[via_fn]
proof fn tokens_of_decreases(l: Seq<char>) {
    lemma_find_char(l, ' ');
}

/// The first line that begins with `Resolution`, if any.
pub open spec fn first_res_line(ls: Seq<Seq<char>>) -> Option<Seq<char>>
    decreases ls.len(),
{
    if ls.len() == 0 {
        None
    } else if starts_with(ls[0], "Resolution"@) {
        Some(ls[0])
    } else {
        first_res_line(ls.drop_first())
    }
}

/// The values of the tokens that read as plain decimal numbers in `u32`
/// range; other tokens are passed over.
pub open spec fn numeric_values(ts: Seq<Seq<char>>) -> Seq<int>
    decreases ts.len(),
{
    if ts.len() == 0 {
        Seq::empty()
    } else if is_u32_numeral(ts[0]) {
        seq![decimal_value(ts[0])] + numeric_values(ts.drop_first())
    } else {
        numeric_values(ts.drop_first())
    }
}

/// The integer views of a vector of numbers.
pub open spec fn int_views(vs: Seq<u32>) -> Seq<int> {
    vs.map_values(|v: u32| v as int)
}

/// Whether `s` begins with the characters of `p`.
fn starts_with_exec(s: &[char], p: &[char]) -> (r: bool)
    ensures
        r == starts_with(s@, p@),
{
    let np = p.len();
    if s.len() < np {
        return false;
    }
    let mut i: usize = 0;
    while i < np
        invariant
            i <= np,
            np == p@.len(),
            s@.len() >= np,
            forall|m: int| 0 <= m < i ==> s@[m] == p@[m],
        decreases np - i,
    {
        if s[i] != p[i] {
            proof {
                assert(s@.take(np as int)[i as int] != p@[i as int]);
            }
            return false;
        }
        i = i + 1;
    }
    proof {
        assert(s@.take(np as int) =~= p@);
    }
    true
}

/// Read the resolution out of an options file: the first line beginning
/// with `Resolution` must hold exactly two plain decimal numbers among its
/// space-separated tokens.
pub fn parse_options_resolution(contents: &str) -> (r: Result<(u32, u32), String>)
    ensures
        match r {
            Ok(xy) => first_res_line(crate::manifest::lines_of(crate::manifest::strip_cr(contents@)))
                matches Some(l) && numeric_values(tokens_of(l)) == seq![xy.0 as int, xy.1 as int],
            Err(m) => match first_res_line(
                crate::manifest::lines_of(crate::manifest::strip_cr(contents@)),
            ) {
                None => m@ == "Could not find Resolution in options.ini!"@,
                Some(l) => numeric_values(tokens_of(l)).len() != 2 && m@
                    == "Error parsing options.ini"@,
            },
        },
{
    let cs = crate::manifest::strip_cr_chars(contents);
    let n = cs.len();
    let prefix = crate::text::chars_of("Resolution");
    let mut pos: usize = 0;
    let ghost all_lines = crate::manifest::lines_of(cs@);
    proof {
        assert(cs@.skip(0) =~= cs@);
    }
    loop
        invariant
            pos <= n,
            n == cs@.len(),
            cs@ == crate::manifest::strip_cr(contents@),
            prefix@ == "Resolution"@,
            all_lines == crate::manifest::lines_of(cs@),
            first_res_line(crate::manifest::lines_of(cs@.skip(pos as int))) == first_res_line(
                all_lines,
            ),
        decreases n - pos,
    {
        let found = find_from(cs.as_slice(), pos, '\n');
        let line_end = match found {
            Some(k) => k,
            None => n,
        };
        let line = slice_subrange(cs.as_slice(), pos, line_end);
        let ghost suffix = cs@.skip(pos as int);
        proof {
            assert(line@ =~= suffix.take(line_end - pos));
            match found {
                Some(k) => {
                    assert(find_char(suffix, '\n') == k - pos);
                    assert(crate::manifest::lines_of(suffix) == seq![suffix.take(k - pos)]
                        + crate::manifest::lines_of(suffix.skip(k - pos + 1)));
                    assert(suffix.skip(line_end - pos + 1) =~= cs@.skip(line_end + 1));
                },
                None => {
                    assert(find_char(suffix, '\n') == -1);
                    assert(crate::manifest::lines_of(suffix) == seq![suffix]);
                    assert(line@ =~= suffix);
                },
            }
            assert(crate::manifest::lines_of(suffix)[0] == line@);
        }
        if starts_with_exec(line, prefix.as_slice()) {
            proof {
                assert(first_res_line(crate::manifest::lines_of(suffix)) == Some(line@));
            }
            return parse_resolution_line(line);
        }
        proof {
            assert(first_res_line(crate::manifest::lines_of(suffix)) == first_res_line(
                crate::manifest::lines_of(suffix).drop_first(),
            ));
        }
        match found {
            Some(k) => {
                proof {
                    assert(crate::manifest::lines_of(suffix).drop_first()
                        =~= crate::manifest::lines_of(cs@.skip(k + 1)));
                }
                pos = k + 1;
            },
            None => {
                proof {
                    assert(crate::manifest::lines_of(suffix).drop_first() =~= Seq::<
                        Seq<char>,
                    >::empty());
                    assert(first_res_line(Seq::<Seq<char>>::empty()) is None);
                }
                return Err("Could not find Resolution in options.ini!".to_owned());
            },
        }
    }
}

/// The two numbers of one resolution line, if it holds exactly two.
fn parse_resolution_line(line: &[char]) -> (r: Result<(u32, u32), String>)
    ensures
        match r {
            Ok(xy) => numeric_values(tokens_of(line@)) == seq![xy.0 as int, xy.1 as int],
            Err(m) => numeric_values(tokens_of(line@)).len() != 2 && m@
                == "Error parsing options.ini"@,
        },
{
    let n = line.len();
    let mut vals: Vec<u32> = Vec::new();
    let mut pos: usize = 0;
    proof {
        assert(line@.skip(0) =~= line@);
        assert(int_views(vals@) =~= Seq::<int>::empty());
        assert(int_views(vals@) + numeric_values(tokens_of(line@)) =~= numeric_values(
            tokens_of(line@),
        ));
    }
    loop
        invariant
            pos <= n,
            n == line@.len(),
            int_views(vals@) + numeric_values(tokens_of(line@.skip(pos as int)))
                == numeric_values(tokens_of(line@)),
        decreases n - pos,
    {
        let found = find_from(line, pos, ' ');
        let tok_end = match found {
            Some(k) => k,
            None => n,
        };
        let tok = slice_subrange(line, pos, tok_end);
        let ghost suffix = line@.skip(pos as int);
        proof {
            assert(tok@ =~= suffix.take(tok_end - pos));
            match found {
                Some(k) => {
                    assert(find_char(suffix, ' ') == k - pos);
                    assert(tokens_of(suffix) == seq![suffix.take(k - pos)] + tokens_of(
                        suffix.skip(k - pos + 1),
                    ));
                    assert(suffix.skip(tok_end - pos + 1) =~= line@.skip(tok_end + 1));
                },
                None => {
                    assert(find_char(suffix, ' ') == -1);
                    assert(tokens_of(suffix) == seq![suffix]);
                    assert(tok@ =~= suffix);
                },
            }
            assert(tokens_of(suffix)[0] == tok@);
        }
        let ghost vals0 = vals@;
        let tok_string = string_from_chars(tok);
        match parse_u32(tok_string.as_str()) {
            Some(v) => {
                vals.push(v);
                proof {
                    assert(is_u32_numeral(tok@));
                    assert(numeric_values(tokens_of(suffix)) == seq![decimal_value(tok@)]
                        + numeric_values(tokens_of(suffix).drop_first()));
                    assert(int_views(vals@) =~= int_views(vals0).push(v as int));
                    assert(int_views(vals0).push(v as int) + numeric_values(
                        tokens_of(suffix).drop_first(),
                    ) =~= int_views(vals0) + (seq![decimal_value(tok@)] + numeric_values(
                        tokens_of(suffix).drop_first(),
                    )));
                }
            },
            None => {
                proof {
                    assert(!is_u32_numeral(tok@));
                    assert(numeric_values(tokens_of(suffix)) == numeric_values(
                        tokens_of(suffix).drop_first(),
                    ));
                }
            },
        }
        match found {
            Some(k) => {
                proof {
                    assert(tokens_of(suffix).drop_first() =~= tokens_of(line@.skip(k + 1)));
                }
                pos = k + 1;
            },
            None => {
                proof {
                    assert(tokens_of(suffix).drop_first() =~= Seq::<Seq<char>>::empty());
                    assert(numeric_values(Seq::<Seq<char>>::empty()) == Seq::<int>::empty());
                    assert(int_views(vals@) + Seq::<int>::empty() =~= int_views(vals@));
                }
                if vals.len() == 2 {
                    let x = vals[0];
                    let y = vals[1];
                    proof {
                        assert(int_views(vals@) =~= seq![x as int, y as int]);
                    }
                    return Ok((x, y));
                }
                proof {
                    assert(numeric_values(tokens_of(line@)).len() == vals@.len());
                }
                return Err("Error parsing options.ini".to_owned());
            },
        }
    }
}

/// The `Ok(value), ` or `Err(message), ` description of one registry read,
/// as the load failure report lists them.
pub open spec fn describe_spec(r: Result<String, String>) -> Seq<char> {
    match r {
        Ok(v) => "Ok("@ + v@ + "), "@,
        Err(e) => "Err("@ + e@ + "), "@,
    }
}

fn describe_result(r: &Result<String, String>) -> (d: String)
    ensures
        d@ == describe_spec(*r),
{
    match r {
        Ok(v) => {
            let mut d = "Ok(".to_owned();
            d.append(v.as_str());
            d.append("), ");
            d
        },
        Err(e) => {
            let mut d = "Err(".to_owned();
            d.append(e.as_str());
            d.append("), ");
            d
        },
    }
}

impl Installation {
    /// Assemble an installation from what was loaded for it: the four
    /// registry reads, the home directory the system reported, and the
    /// content of the options file under the derived user-data directory.
    /// Every reading of the inputs yields the stated record or the stated
    /// message.
    pub fn load_outcome(
        game: Game,
        checksum_r: Result<String, String>,
        path_r: Result<String, String>,
        userdata_dir_r: Result<String, String>,
        ergc_r: Result<String, String>,
        home: Option<String>,
        options: Option<String>,
    ) -> (r: Result<Installation, String>)
        ensures
            ({
                ||| checksum_r is Err
                ||| path_r is Err
                ||| userdata_dir_r is Err
                ||| ergc_r is Err
            }) ==> (r matches Err(m) && m@ == "Not matching: Got ("@ + describe_spec(checksum_r)
                + describe_spec(path_r) + describe_spec(userdata_dir_r) + describe_spec(ergc_r)
                + ")"@),
            checksum_r is Ok && path_r is Ok && userdata_dir_r is Ok && ergc_r is Ok ==> (match (
                home,
                options,
            ) {
                (None, _) => r matches Err(m) && m@ == "Could not determine home directory!"@,
                (Some(h), None) => r matches Err(m) && m@ == "Couldn't open "@ + (h@
                    + "/AppData/Roaming/"@ + userdata_dir_r->Ok_0@) + "/Options.ini"@,
                (Some(h), Some(opts)) => match parse_options_spec(opts@) {
                    Some(xy) => r matches Ok(inst) && inst.game == game && inst.checksum@
                        == checksum_r->Ok_0@ && inst.path@ == path_r->Ok_0@ && inst.userdata_path@
                        == h@ + "/AppData/Roaming/"@ + userdata_dir_r->Ok_0@ && inst.ergc@
                        == ergc_r->Ok_0@ && inst.resolution.0 == xy.0 && inst.resolution.1 == xy.1
                        && inst.install_source is None && inst.is_complete && !inst.in_progress,
                    None => r is Err,
                },
            }),
    {
        match (checksum_r, path_r, userdata_dir_r, ergc_r) {
            (Ok(checksum), Ok(path), Ok(userdata_dir), Ok(ergc)) => {
                let home = match home {
                    Some(h) => h,
                    None => {
                        return Err("Could not determine home directory!".to_owned());
                    },
                };
                let userdata_path = appdata_roaming(home.as_str(), userdata_dir.as_str());
                let opts = match options {
                    Some(o) => o,
                    None => {
                        let mut m = "Couldn't open ".to_owned();
                        m.append(userdata_path.as_str());
                        m.append("/Options.ini");
                        return Err(m);
                    },
                };
                match parse_options_resolution(opts.as_str()) {
                    Ok(resolution) => Ok(
                        Installation {
                            game,
                            checksum,
                            path,
                            userdata_path,
                            ergc,
                            resolution,
                            install_source: None,
                            is_complete: true,
                            in_progress: false,
                        },
                    ),
                    Err(m) => Err(m),
                }
            },
            (a, b, c, d) => {
                let mut m = "Not matching: Got (".to_owned();
                let da = describe_result(&a);
                m.append(da.as_str());
                let db = describe_result(&b);
                m.append(db.as_str());
                let dc = describe_result(&c);
                m.append(dc.as_str());
                let dd = describe_result(&d);
                m.append(dd.as_str());
                m.append(")");
                Err(m)
            },
        }
    }
}

/// What an options text says the resolution is: the two numbers of the
/// first `Resolution` line, when it holds exactly two.
pub open spec fn parse_options_spec(s: Seq<char>) -> Option<(int, int)> {
    match first_res_line(crate::manifest::lines_of(crate::manifest::strip_cr(s))) {
        None => None,
        Some(l) => {
            let vs = numeric_values(tokens_of(l));
            if vs.len() == 2 {
                Some((vs[0], vs[1]))
            } else {
                None
            }
        },
    }
}

} // verus!
