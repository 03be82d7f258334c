//! Classification of asset files by extension, and the record the tuner
//! works on: a path, its classified type, its size, and its bytes.
//!
//! Directory walking and file reading stay outside the library; an
//! `AssetInfo` is built from a path and bytes that are already in hand.
//! Paths are modelled as strings whose components are separated by `/`;
//! the extension is what follows the last `.` of the final component,
//! unless that dot starts the component.

use vstd::prelude::*;
use vstd::string::*;

verus! {

/// Coarse asset categories, decided by file extension.
#[derive(Debug, Clone, Copy, PartialEq, Eq, Structural)]
pub enum AssetType {
    Texture,
    Model,
    LevelData,
    Audio,
    Animation,
    Unknown,
}

/// The display name of an asset category.
pub open spec fn spec_type_name(t: AssetType) -> Seq<char> {
    match t {
        AssetType::Texture => "Texture"@,
        AssetType::Model => "Model"@,
        AssetType::LevelData => "LevelData"@,
        AssetType::Audio => "Audio"@,
        AssetType::Animation => "Animation"@,
        AssetType::Unknown => "Unknown"@,
    }
}

impl AssetType {
    /// The category's display name.
    pub fn name(&self) -> (r: String)
        ensures
            r@ == spec_type_name(*self),
    {
        match self {
            AssetType::Texture => String::from_str("Texture"),
            AssetType::Model => String::from_str("Model"),
            AssetType::LevelData => String::from_str("LevelData"),
            AssetType::Audio => String::from_str("Audio"),
            AssetType::Animation => String::from_str("Animation"),
            AssetType::Unknown => String::from_str("Unknown"),
        }
    }
}

/// Index of the last occurrence of `c` in `s`, or -1 when absent.
pub open spec fn last_pos_of(s: Seq<char>, c: char) -> int
    decreases s.len(),
{
    if s.len() == 0 {
        -1
    } else if s.last() == c {
        s.len() - 1
    } else {
        last_pos_of(s.drop_last(), c)
    }
}

/// `last_pos_of` really is the last occurrence.
pub proof fn lemma_last_pos_of(s: Seq<char>, c: char)
    ensures
        -1 <= last_pos_of(s, c) < s.len() || (s.len() == 0 && last_pos_of(s, c) == -1),
        last_pos_of(s, c) == -1 ==> forall|i: int| 0 <= i < s.len() ==> s[i] != c,
        last_pos_of(s, c) >= 0 ==> {
            &&& last_pos_of(s, c) < s.len()
            &&& s[last_pos_of(s, c)] == c
            &&& forall|i: int| last_pos_of(s, c) < i < s.len() ==> s[i] != c
        },
    decreases s.len(),
{
    if s.len() == 0 {
    } else if s.last() == c {
        assert(s[s.len() - 1] == c);
    } else {
        lemma_last_pos_of(s.drop_last(), c);
        let l = last_pos_of(s, c);
        assert(l == last_pos_of(s.drop_last(), c));
        assert(-1 <= l < s.len());
        if l == -1 {
            assert forall|i: int| 0 <= i < s.len() implies s[i] != c by {
                if i < s.len() - 1 {
                    assert(s.drop_last()[i] != c);
                    assert(s[i] == s.drop_last()[i]);
                } else {
                    assert(s[i] == s.last());
                }
            }
        } else {
            assert(s.drop_last()[l] == c);
            assert(s[l] == s.drop_last()[l]);
            assert forall|i: int| l < i < s.len() implies s[i] != c by {
                if i < s.len() - 1 {
                    assert(s.drop_last()[i] != c);
                    assert(s[i] == s.drop_last()[i]);
                } else {
                    assert(s[i] == s.last());
                }
            }
        }
    }
}

/// Lower-case an ASCII letter; everything else is untouched.
pub open spec fn lower_char(c: char) -> char {
    if 65 <= c as int && c as int <= 90 {
        (c as int + 32) as char
    } else {
        c
    }
}

/// ASCII lower-casing of a character sequence.
pub open spec fn lower_seq(s: Seq<char>) -> Seq<char> {
    s.map_values(|c: char| lower_char(c))
}

/// The final path component (everything after the last `/`).
pub open spec fn spec_filename(p: Seq<char>) -> Seq<char> {
    p.subrange(last_pos_of(p, '/') + 1, p.len() as int)
}

/// The final path component as displayed: "unknown" when there is none.
pub open spec fn spec_display_filename(p: Seq<char>) -> Seq<char> {
    if spec_filename(p).len() == 0 {
        "unknown"@
    } else {
        spec_filename(p)
    }
}

/// The lower-cased extension of a path, if its final component has one.
pub open spec fn spec_extension(p: Seq<char>) -> Option<Seq<char>> {
    let f = spec_filename(p);
    let d = last_pos_of(f, '.');
    if d <= 0 {
        None
    } else {
        Some(lower_seq(f.subrange(d + 1, f.len() as int)))
    }
}

/// The category a lower-cased extension maps to.
pub open spec fn spec_asset_type(ext: Option<Seq<char>>) -> AssetType {
    match ext {
        Option::None => AssetType::Unknown,
        Option::Some(e) => if e == "png"@ || e == "jpg"@ || e == "jpeg"@ || e == "tga"@ || e
            == "dds"@ || e == "ktx"@ || e == "bmp"@ || e == "hdr"@ || e == "exr"@ || e == "psd"@ {
            AssetType::Texture
        } else if e == "fbx"@ || e == "obj"@ || e == "gltf"@ || e == "glb"@ || e == "dae"@ || e
            == "blend"@ || e == "3ds"@ || e == "stl"@ || e == "ply"@ {
            AssetType::Model
        } else if e == "map"@ || e == "level"@ || e == "umap"@ || e == "unity"@ || e == "scene"@ {
            AssetType::LevelData
        } else if e == "wav"@ || e == "mp3"@ || e == "ogg"@ || e == "flac"@ || e == "m4a"@ || e
            == "aiff"@ {
            AssetType::Audio
        } else if e == "anim"@ || e == "animation"@ || e == "anm"@ || e == "smd"@ {
            AssetType::Animation
        } else {
            AssetType::Unknown
        },
    }
}

/// Relies on String::push: appends exactly the given character.
#[verifier::external_body]
pub(crate) fn string_push_char(s: &mut String, c: char)
    ensures
        final (s)@ == old(s)@.push(c),
{
    s.push(c);
}

/// The decimal digits of a number, most significant first.
pub open spec fn dec_str(n: nat) -> Seq<char>
    decreases n,
{
    if n < 10 {
        seq![((48 + n) as char)]
    } else {
        dec_str(n / 10).push(((48 + n % 10) as char))
    }
}

fn push_decimal(s: &mut String, n: usize)
    ensures
        final (s)@ == old(s)@ + dec_str(n as nat),
    decreases n,
{
    let ghost s0 = s@;
    if n >= 10 {
        push_decimal(s, n / 10);
    }
    let d = (n % 10) as u8;
    string_push_char(s, (48 + d) as char);
    proof {
        assert(s@ =~= s0 + dec_str(n as nat));
    }
}

/// Decimal rendering of a number.
pub fn decimal_string(n: usize) -> (r: String)
    ensures
        r@ == dec_str(n as nat),
{
    let mut s = String::new();
    push_decimal(&mut s, n);
    proof {
        assert(s@ =~= dec_str(n as nat));
    }
    s
}

fn lower_char_exec(c: char) -> (r: char)
    ensures
        r == lower_char(c),
{
    let u = c as u32;
    if 65 <= u && u <= 90 {
        ((u + 32) as u8) as char
    } else {
        c
    }
}

/// Character-for-character string equality.
pub fn str_eq(a: &str, b: &str) -> (r: bool)
    ensures
        r == (a@ == b@),
{
    let la = a.unicode_len();
    let lb = b.unicode_len();
    if la != lb {
        return false;
    }
    let mut i: usize = 0;
    while i < la
        invariant
            i <= la,
            la == a@.len(),
            la == b@.len(),
            forall|j: int| 0 <= j < i ==> a@[j] == b@[j],
        decreases la - i,
    {
        if a.get_char(i) != b.get_char(i) {
            return false;
        }
        i = i + 1;
    }
    proof {
        assert(a@ =~= b@);
    }
    true
}

/// Position of the last occurrence of `c` in `s`.
pub fn rfind_char(s: &str, c: char) -> (r: Option<usize>)
    ensures
        match r {
            Option::None => last_pos_of(s@, c) == -1,
            Option::Some(i) => last_pos_of(s@, c) == i,
        },
{
    let mut i = s.unicode_len();
    while i > 0
        invariant
            i <= s@.len(),
            forall|j: int| i <= j < s@.len() ==> s@[j] != c,
        decreases i,
    {
        i = i - 1;
        if s.get_char(i) == c {
            proof {
                lemma_last_pos_of(s@, c);
                assert(last_pos_of(s@, c) >= 0);
                assert(last_pos_of(s@, c) == i) by {
                    let l = last_pos_of(s@, c);
                    if l < i {
                        assert(s@[i as int] != c);
                    }
                    if l > i {
                        assert(s@[l] != c);
                    }
                }
            }
            return Some(i);
        }
    }
    proof {
        lemma_last_pos_of(s@, c);
        if last_pos_of(s@, c) >= 0 {
            assert(s@[last_pos_of(s@, c)] != c);
        }
    }
    None
}

/// ASCII lower-casing of a string.
pub fn to_ascii_lower(s: &str) -> (r: String)
    ensures
        r@ == lower_seq(s@),
{
    let len = s.unicode_len();
    let mut out = String::new();
    let mut i: usize = 0;
    while i < len
        invariant
            i <= len,
            len == s@.len(),
            out@ == lower_seq(s@.take(i as int)),
        decreases len - i,
    {
        let c = s.get_char(i);
        let lc = lower_char_exec(c);
        string_push_char(&mut out, lc);
        i = i + 1;
        proof {
            assert(out@ =~= lower_seq(s@.take(i as int)));
        }
    }
    proof {
        assert(s@.take(len as int) =~= s@);
        assert(out@ =~= lower_seq(s@));
    }
    out
}

/// The lower-cased extension of a path string, if its final component has
/// one.
pub fn extension_of(path: &str) -> (r: Option<String>)
    ensures
        match r {
            Option::None => spec_extension(path@) is None,
            Option::Some(e) => spec_extension(path@) == Some(e@),
        },
{
    let len = path.unicode_len();
    proof {
        lemma_last_pos_of(path@, '/');
    }
    let fstart = match rfind_char(path, '/') {
        Option::None => 0,
        Option::Some(i) => i + 1,
    };
    let fname = path.substring_char(fstart, len);
    proof {
        assert(fname@ == spec_filename(path@));
        lemma_last_pos_of(fname@, '.');
    }
    let flen = fname.unicode_len();
    match rfind_char(fname, '.') {
        Option::None => None,
        Option::Some(d) => {
            if d == 0 {
                None
            } else {
                let ext = fname.substring_char(d + 1, flen);
                Some(to_ascii_lower(ext))
            }
        },
    }
}

/// The final component of a path string, or "unknown" when there is none.
pub fn filename_of(path: &str) -> (r: String)
    ensures
        r@ == spec_display_filename(path@),
{
    let len = path.unicode_len();
    proof {
        lemma_last_pos_of(path@, '/');
    }
    let fstart = match rfind_char(path, '/') {
        Option::None => 0,
        Option::Some(i) => i + 1,
    };
    let fname = path.substring_char(fstart, len);
    proof {
        assert(fname@ == spec_filename(path@));
    }
    if fname.unicode_len() == 0 {
        String::from_str("unknown")
    } else {
        fname.to_owned()
    }
}

/// Classify a file by the extension of its path.
pub fn identify_asset_type(path: &str) -> (r: AssetType)
    ensures
        r == spec_asset_type(spec_extension(path@)),
{
    match extension_of(path) {
        Option::None => AssetType::Unknown,
        Option::Some(e) => {
            let s = e.as_str();
            if str_eq(s, "png") || str_eq(s, "jpg") || str_eq(s, "jpeg") || str_eq(s, "tga")
                || str_eq(s, "dds") || str_eq(s, "ktx") || str_eq(s, "bmp") || str_eq(s, "hdr")
                || str_eq(s, "exr") || str_eq(s, "psd") {
                AssetType::Texture
            } else if str_eq(s, "fbx") || str_eq(s, "obj") || str_eq(s, "gltf") || str_eq(s, "glb")
                || str_eq(s, "dae") || str_eq(s, "blend") || str_eq(s, "3ds") || str_eq(s, "stl")
                || str_eq(s, "ply") {
                AssetType::Model
            } else if str_eq(s, "map") || str_eq(s, "level") || str_eq(s, "umap") || str_eq(
                s,
                "unity",
            ) || str_eq(s, "scene") {
                AssetType::LevelData
            } else if str_eq(s, "wav") || str_eq(s, "mp3") || str_eq(s, "ogg") || str_eq(s, "flac")
                || str_eq(s, "m4a") || str_eq(s, "aiff") {
                AssetType::Audio
            } else if str_eq(s, "anim") || str_eq(s, "animation") || str_eq(s, "anm") || str_eq(
                s,
                "smd",
            ) {
                AssetType::Animation
            } else {
                AssetType::Unknown
            }
        },
    }
}

/// The rule a directory scan applies: keep classified files, and
/// unclassified ones only above a kilobyte.
pub fn scan_keeps(asset_type: AssetType, size: usize) -> (r: bool)
    ensures
        r <==> (asset_type != AssetType::Unknown || size > 1024),
{
    !matches!(asset_type, AssetType::Unknown) || size > 1024
}

/// One asset the tuner can work on: its path, classified type, size, and
/// bytes, all already in hand.
#[derive(Debug)]
pub struct AssetInfo {
    /// The file path of the asset.
    pub path: String,
    /// The type of the asset.
    pub asset_type: AssetType,
    /// The size of the asset in bytes.
    pub size: usize,
    /// The bytes of the asset.
    pub data: Vec<u8>,
}

impl Clone for AssetInfo {
    /// A clone carries the same path, type, size, and bytes.
    fn clone(&self) -> (r: Self)
        ensures
            r.path@ == self.path@,
            r.asset_type == self.asset_type,
            r.size == self.size,
            r.data@ == self.data@,
    {
        let r = AssetInfo {
            path: self.path.clone(),
            asset_type: self.asset_type,
            size: self.size,
            data: self.data.clone(),
        };
        proof {
            assert(r.data@ =~= self.data@);
        }
        r
    }
}

impl AssetInfo {
    /// Build the record for a file whose bytes are in hand, classifying it
    /// by its path's extension.
    pub fn new(path: String, size: usize, data: Vec<u8>) -> (r: Self)
        ensures
            r.path@ == path@,
            r.size == size,
            r.data@ == data@,
            r.asset_type == spec_asset_type(spec_extension(path@)),
    {
        let asset_type = identify_asset_type(path.as_str());
        AssetInfo { path, asset_type, size, data }
    }

    /// The asset's bytes.
    pub fn data(&self) -> (r: &Vec<u8>)
        ensures
            r@ == self.data@,
    {
        &self.data
    }

    /// The lower-cased file extension of the asset, if any.
    pub fn extension(&self) -> (r: Option<String>)
        ensures
            match r {
                Option::None => spec_extension(self.path@) is None,
                Option::Some(e) => spec_extension(self.path@) == Some(e@),
            },
    {
        extension_of(self.path.as_str())
    }

    /// The filename of the asset without its directory part.
    pub fn filename(&self) -> (r: String)
        ensures
            r@ == spec_display_filename(self.path@),
    {
        filename_of(self.path.as_str())
    }
}

} // verus!
