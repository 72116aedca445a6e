//! Which texture layer belongs to which face of which material, and how the
//! names of the texture files say so.

use crate::chunk::ParseError;
use crate::chunk::ParseErrorView;
use crate::chunk::Voxel;
use vstd::prelude::*;

verus! {

/// The most textures a registry can hold: a layer index has 16 bits.
pub const MAX_TEXTURES: usize = 65536;

/// The side to which this face is oriented towards.
#[derive(Debug, Clone, Copy, PartialEq, Eq, Hash, Structural)]
pub enum Face {
    /// Towards positive y.
    Up,
    /// Towards negative y.
    Down,
    /// Perpendicular to the y-axis.
    Side,
}

impl Face {
    /// The face direction that a name stands for, if any.
    pub open spec fn from_name(name: Seq<char>) -> Option<Face> {
        if name == "up"@ {
            Some(Face::Up)
        } else if name == "down"@ {
            Some(Face::Down)
        } else if name == "side"@ {
            Some(Face::Side)
        } else {
            None
        }
    }

    /// Reads a face direction from its lower-case name.
    pub fn parse(s: &str) -> (r: Result<Face, ParseError>)
        ensures
            match r {
                Ok(f) => Face::from_name(s@) == Some(f),
                Err(e) => Face::from_name(s@).is_none() && e@ == ParseErrorView::UnknownFace(s@),
            },
    {
        let name = s.to_owned();
        if name == "up".to_owned() {
            Ok(Face::Up)
        } else if name == "down".to_owned() {
            Ok(Face::Down)
        } else if name == "side".to_owned() {
            Ok(Face::Side)
        } else {
            Err(ParseError::UnknownFace(name))
        }
    }
}

impl core::str::FromStr for Face {
    type Err = ParseError;

    /// Reads a face direction from its lower-case name, as `Face::parse` does.
    fn from_str(s: &str) -> (r: Result<Face, ParseError>)
        ensures
            match r {
                Ok(f) => Face::from_name(s@) == Some(f),
                Err(e) => Face::from_name(s@).is_none() && e@ == ParseErrorView::UnknownFace(s@),
            },
    {
        Face::parse(s)
    }
}

/// The place of the first entry of `textures` that is equal to `(voxel, face)`,
/// if there is one.
pub open spec fn first_texture(textures: Seq<(Voxel, Face)>, voxel: Voxel, face: Face) -> Option<
    int,
> {
    if exists|i: int| 0 <= i < textures.len() && textures[i] == (voxel, face) {
        Some(
            choose|i: int|
                0 <= i < textures.len() && textures[i] == (voxel, face) && forall|j: int|
                    0 <= j < i ==> textures[j] != (voxel, face),
        )
    } else {
        None
    }
}

/// Associates voxels with their texture for each face: the textures stand in the
/// order in which they were uploaded, and the place of a texture is its layer.
#[derive(Debug)]
pub struct AssetRegistry {
    /// All textures uploaded to the GPU.
    pub textures: Vec<(Voxel, Face)>,
}

impl AssetRegistry {
    /// Every place in the registry is a layer index.
    pub open spec fn wf(&self) -> bool {
        self.textures@.len() <= MAX_TEXTURES
    }

    /// The layer of the texture for a face of a material, if one was registered.
    pub open spec fn texture_index(&self, voxel: Voxel, face: Face) -> Option<u16> {
        match first_texture(self.textures@, voxel, face) {
            Some(i) => Some(i as u16),
            None => None,
        }
    }

    /// Whether every face of every material other than air has a texture.
    pub open spec fn is_complete(&self) -> bool {
        forall|voxel: Voxel, face: Face|
            voxel.is_solid() ==> (#[trigger] self.texture_index(voxel, face)).is_some()
    }

    /// Whether every face of every material other than air has a texture.
    pub fn check_complete(&self) -> (b: bool)
        requires
            self.wf(),
        ensures
            b == self.is_complete(),
    {
        let covered: bool = self.covers(Voxel::Grass) && self.covers(Voxel::Dirt) && self.covers(
            Voxel::Stone,
        ) && self.covers(Voxel::Snow);
        proof {
            if covered {
                assert forall|voxel: Voxel, face: Face| voxel.is_solid() implies (
                #[trigger] self.texture_index(voxel, face)).is_some() by {
                    assert(self.covered(voxel));
                }
            } else {
                let missing = if !self.covered(Voxel::Grass) {
                    Voxel::Grass
                } else if !self.covered(Voxel::Dirt) {
                    Voxel::Dirt
                } else if !self.covered(Voxel::Stone) {
                    Voxel::Stone
                } else {
                    Voxel::Snow
                };
                assert(!self.covered(missing));
                assert(self.texture_index(missing, Face::Up).is_none() || self.texture_index(
                    missing,
                    Face::Down,
                ).is_none() || self.texture_index(missing, Face::Side).is_none());
            }
        }
        covered
    }

    /// Whether every face of the material has a texture.
    pub open spec fn covered(&self, voxel: Voxel) -> bool {
        &&& self.texture_index(voxel, Face::Up).is_some()
        &&& self.texture_index(voxel, Face::Down).is_some()
        &&& self.texture_index(voxel, Face::Side).is_some()
    }

    /// Whether every face of the material has a texture.
    pub fn covers(&self, voxel: Voxel) -> (b: bool)
        requires
            self.wf(),
        ensures
            b == self.covered(voxel),
    {
        get_texture_index(self, &voxel, &Face::Up).is_some() && get_texture_index(
            self,
            &voxel,
            &Face::Down,
        ).is_some() && get_texture_index(self, &voxel, &Face::Side).is_some()
    }

    /// Creates a registry without textures.
    pub fn new() -> (registry: AssetRegistry)
        ensures
            registry.wf(),
            registry.textures@ == Seq::<(Voxel, Face)>::empty(),
    {
        AssetRegistry { textures: Vec::new() }
    }

    /// Records that the next texture uploaded belongs to `face` of `voxel`, and
    /// returns its layer. A full registry takes no more textures.
    pub fn register(&mut self, voxel: Voxel, face: Face) -> (layer: Option<u16>)
        requires
            old(self).wf(),
        ensures
            final(self).wf(),
            match layer {
                Some(index) => {
                    &&& old(self).textures@.len() < MAX_TEXTURES
                    &&& index == old(self).textures@.len()
                    &&& final(self).textures@ == old(self).textures@.push((voxel, face))
                },
                None => {
                    &&& old(self).textures@.len() == MAX_TEXTURES
                    &&& final(self).textures@ == old(self).textures@
                },
            },
    {
        let index: usize = self.textures.len();
        if index < MAX_TEXTURES {
            self.textures.push((voxel, face));
            Some(index as u16)
        } else {
            None
        }
    }
}

/// What `first_texture` finds: the entry at that place is the pair that was asked
/// for, and no earlier entry is.
pub proof fn lemma_first_texture(textures: Seq<(Voxel, Face)>, voxel: Voxel, face: Face)
    ensures
        match first_texture(textures, voxel, face) {
            Some(i) => {
                &&& 0 <= i < textures.len()
                &&& textures[i] == (voxel, face)
                &&& forall|j: int| 0 <= j < i ==> textures[j] != (voxel, face)
            },
            None => forall|j: int| 0 <= j < textures.len() ==> textures[j] != (voxel, face),
        },
{
    if exists|i: int| 0 <= i < textures.len() && textures[i] == (voxel, face) {
        let w = choose|i: int| 0 <= i < textures.len() && textures[i] == (voxel, face);
        lemma_least_texture(textures, voxel, face, w);
    }
}

/// Below any place that holds the pair there is a first place that holds it.
proof fn lemma_least_texture(textures: Seq<(Voxel, Face)>, voxel: Voxel, face: Face, w: int)
    requires
        0 <= w < textures.len(),
        textures[w] == (voxel, face),
    ensures
        exists|i: int|
            0 <= i < textures.len() && textures[i] == (voxel, face) && forall|j: int|
                0 <= j < i ==> textures[j] != (voxel, face),
    decreases w,
{
    if exists|k: int| 0 <= k < w && textures[k] == (voxel, face) {
        let k = choose|k: int| 0 <= k < w && textures[k] == (voxel, face);
        lemma_least_texture(textures, voxel, face, k);
    } else {
        assert(0 <= w < textures.len() && textures[w] == (voxel, face) && forall|j: int|
            0 <= j < w ==> textures[j] != (voxel, face));
    }
}

/// Gets the appropriate texture index for a given voxel oriented in this face
/// direction: the place of the first texture registered for the pair.
pub fn get_texture_index(registry: &AssetRegistry, voxel: &Voxel, face: &Face) -> (index: Option<
    u16,
>)
    requires
        registry.wf(),
    ensures
        index == registry.texture_index(*voxel, *face),
        match index {
            Some(i) => {
                &&& i < registry.textures@.len()
                &&& registry.textures@[i as int] == (*voxel, *face)
                &&& forall|j: int| 0 <= j < i ==> registry.textures@[j] != (*voxel, *face)
            },
            None => forall|j: int|
                0 <= j < registry.textures@.len() ==> registry.textures@[j] != (*voxel, *face),
        },
{
    proof {
        lemma_first_texture(registry.textures@, *voxel, *face);
    }
    let mut i: usize = 0;
    while i < registry.textures.len()
        invariant
            0 <= i <= registry.textures@.len(),
            registry.textures@.len() <= MAX_TEXTURES,
            forall|j: int| 0 <= j < i ==> registry.textures@[j] != (*voxel, *face),
        decreases registry.textures@.len() - i,
    {
        let entry: (Voxel, Face) = registry.textures[i];
        if entry.0 == *voxel && entry.1 == *face {
            return Some(i as u16);
        }
        i = i + 1;
    }
    None
}

/// The pattern of the name of a texture file: the material, an underscore, the
/// face, any one character and `png`.
pub const ASSET_PATTERN: &'static str = "(\\w+)_(\\w+).png";

/// What `regex::Regex::new` and `regex::Regex::captures_iter` find: nothing where
/// `pattern` is no regular expression that the crate accepts; otherwise the
/// successive non-overlapping matches of `pattern` in `haystack`, each with the
/// text of every capture group, the whole match first, and none for a group
/// that took no part in the match.
pub uninterp spec fn spec_regex_captures(pattern: Seq<char>, haystack: Seq<char>) -> Option<
    Seq<Seq<Option<Seq<char>>>>,
>;

/// The capture groups of one match as sequences of characters.
pub open spec fn groups_view(groups: Vec<Option<String>>) -> Seq<Option<Seq<char>>> {
    Seq::new(
        groups@.len(),
        |j: int|
            match groups@[j] {
                Some(text) => Some(text@),
                None => None,
            },
    )
}

/// What was found as sequences of characters.
pub open spec fn captures_view(found: Option<Vec<Vec<Option<String>>>>) -> Option<
    Seq<Seq<Option<Seq<char>>>>,
> {
    match found {
        Some(matches) => Some(Seq::new(matches@.len(), |i: int| groups_view(matches@[i]))),
        None => None,
    }
}

/// Compiles `pattern` with `regex::Regex::new` and collects what
/// `Regex::captures_iter` yields on `haystack`, group by group as
/// `Captures::iter` hands them out. Not verified: the contract gives what comes
/// back the name `spec_regex_captures`, which says that it depends on the
/// pattern and the haystack alone.
#[verifier::external_body]
fn regex_captures(pattern: &str, haystack: &str) -> (found: Option<Vec<Vec<Option<String>>>>)
    ensures
        captures_view(found) == spec_regex_captures(pattern@, haystack@),
{
    match regex::Regex::new(pattern) {
        Ok(re) => Some(
            re.captures_iter(haystack).map(
                |c| c.iter().map(|m| m.map(|m| m.as_str().to_owned())).collect(),
            ).collect(),
        ),
        Err(_) => None,
    }
}

/// The material and the face that one match of the file name pattern stands
/// for: the first group names the material, the second the face.
pub open spec fn entry_of_match(groups: Seq<Option<Seq<char>>>) -> Result<
    (Voxel, Face),
    ParseErrorView,
> {
    if groups.len() != 3 || groups[1].is_none() || groups[2].is_none() {
        Err(ParseErrorView::MissingGroup)
    } else {
        match Voxel::from_name(groups[1].unwrap()) {
            None => Err(ParseErrorView::UnknownVoxel(groups[1].unwrap())),
            Some(voxel) => match Face::from_name(groups[2].unwrap()) {
                None => Err(ParseErrorView::UnknownFace(groups[2].unwrap())),
                Some(face) => Ok((voxel, face)),
            },
        }
    }
}

/// The materials and faces that the matches stand for, in their order; where a
/// match stands for none, what is wrong with the first such match.
pub open spec fn entries_of_matches(matches: Seq<Seq<Option<Seq<char>>>>) -> Result<
    Seq<(Voxel, Face)>,
    ParseErrorView,
>
    decreases matches.len(),
{
    if matches.len() == 0 {
        Ok(Seq::empty())
    } else {
        match entries_of_matches(matches.drop_last()) {
            Err(e) => Err(e),
            Ok(entries) => match entry_of_match(matches.last()) {
                Err(e) => Err(e),
                Ok(entry) => Ok(entries.push(entry)),
            },
        }
    }
}

/// The textures that what was found in a file name stands for.
pub open spec fn entries_of_captures(found: Option<Seq<Seq<Option<Seq<char>>>>>) -> Result<
    Seq<(Voxel, Face)>,
    ParseErrorView,
> {
    match found {
        None => Err(ParseErrorView::InvalidPattern),
        Some(matches) => entries_of_matches(matches),
    }
}

/// Whether a result holds the expected entries, or reports the expected error.
pub open spec fn is_entries(
    r: Result<Vec<(Voxel, Face)>, ParseError>,
    expected: Result<Seq<(Voxel, Face)>, ParseErrorView>,
) -> bool {
    match r {
        Ok(entries) => expected == Ok::<Seq<(Voxel, Face)>, ParseErrorView>(entries@),
        Err(e) => expected == Err::<Seq<(Voxel, Face)>, ParseErrorView>(e@),
    }
}

/// The material and the face that one match of the file name pattern stands for.
pub fn entry_from_match(groups: &Vec<Option<String>>) -> (r: Result<(Voxel, Face), ParseError>)
    ensures
        match r {
            Ok(entry) => entry_of_match(groups_view(*groups)) == Ok::<
                (Voxel, Face),
                ParseErrorView,
            >(entry),
            Err(e) => entry_of_match(groups_view(*groups)) == Err::<(Voxel, Face), ParseErrorView>(
                e@,
            ),
        },
{
    if groups.len() != 3 {
        return Err(ParseError::MissingGroup);
    }
    let voxel_name: &String = match &groups[1] {
        Some(name) => name,
        None => {
            return Err(ParseError::MissingGroup);
        },
    };
    let face_name: &String = match &groups[2] {
        Some(name) => name,
        None => {
            return Err(ParseError::MissingGroup);
        },
    };
    let voxel: Voxel = match Voxel::parse(voxel_name.as_str()) {
        Ok(voxel) => voxel,
        Err(e) => {
            return Err(e);
        },
    };
    let face: Face = match Face::parse(face_name.as_str()) {
        Ok(face) => face,
        Err(e) => {
            return Err(e);
        },
    };
    Ok((voxel, face))
}

/// The textures that what was found in a file name stands for: one for each
/// match, in their order. The first match that names no material or no face
/// decides the error.
pub fn entries_from_captures(found: &Option<Vec<Vec<Option<String>>>>) -> (r: Result<
    Vec<(Voxel, Face)>,
    ParseError,
>)
    ensures
        is_entries(r, entries_of_captures(captures_view(*found))),
{
    let matches: &Vec<Vec<Option<String>>> = match found {
        Some(matches) => matches,
        None => {
            return Err(ParseError::InvalidPattern);
        },
    };
    let ghost all = captures_view(*found).unwrap();
    let mut entries: Vec<(Voxel, Face)> = Vec::new();
    let mut i: usize = 0;
    assert(all.take(0) =~= Seq::empty());
    while i < matches.len()
        invariant
            0 <= i <= matches@.len(),
            captures_view(*found) == Some(all),
            all.len() == matches@.len(),
            forall|k: int| 0 <= k < all.len() ==> all[k] == groups_view(matches@[k]),
            entries_of_matches(all.take(i as int)) == Ok::<Seq<(Voxel, Face)>, ParseErrorView>(
                entries@,
            ),
        decreases matches@.len() - i,
    {
        proof {
            assert(all.take(i + 1).drop_last() =~= all.take(i as int));
            assert(all.take(i + 1).last() == groups_view(matches@[i as int]));
        }
        match entry_from_match(&matches[i]) {
            Ok(entry) => {
                entries.push(entry);
            },
            Err(e) => {
                proof {
                    assert(all[i as int] == groups_view(matches@[i as int]));
                    lemma_first_failure(all, i as int);
                }
                return Err(e);
            },
        }
        i = i + 1;
    }
    assert(all.take(all.len() as int) =~= all);
    Ok(entries)
}

/// Where the matches before the `i`-th stand for textures and the `i`-th does
/// not, what is wrong with the `i`-th is what is wrong with them all.
proof fn lemma_first_failure(matches: Seq<Seq<Option<Seq<char>>>>, i: int)
    requires
        0 <= i < matches.len(),
        entries_of_matches(matches.take(i)).is_ok(),
        entry_of_match(matches[i]).is_err(),
    ensures
        entries_of_matches(matches) == Err::<Seq<(Voxel, Face)>, ParseErrorView>(
            entry_of_match(matches[i]).unwrap_err(),
        ),
    decreases matches.len(),
{
    if i == matches.len() - 1 {
        assert(matches.drop_last() =~= matches.take(i));
    } else {
        assert(matches.drop_last().take(i) =~= matches.take(i));
        lemma_first_failure(matches.drop_last(), i);
    }
}

/// The textures that the name of an asset file stands for: one for each match
/// of the file name pattern in it.
pub fn parse_asset_name(file_name: &str) -> (r: Result<Vec<(Voxel, Face)>, ParseError>)
    ensures
        is_entries(r, entries_of_captures(spec_regex_captures(ASSET_PATTERN@, file_name@))),
{
    let found = regex_captures(ASSET_PATTERN, file_name);
    entries_from_captures(&found)
}

} // verus!
