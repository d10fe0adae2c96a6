use vstd::prelude::*;

verus! {

/// The role a texture plays in a material.
#[derive(Debug, Copy, Clone, PartialEq, Eq, Structural)]
pub enum TextureType {
    Diffuse,
    Specular,
    Unknown,
}

/// The shader-side name of a texture role; an unknown role has none.
pub open spec fn texture_type_name(t: TextureType) -> Seq<char> {
    match t {
        TextureType::Diffuse => "texture_diffuse"@,
        TextureType::Specular => "texture_specular"@,
        TextureType::Unknown => Seq::empty(),
    }
}

impl TextureType {
    /// Name of the sampler prefix for this texture role; an unknown role has no name.
    pub fn name(self) -> (name: String)
        requires
            self != TextureType::Unknown,
        ensures
            name@ == texture_type_name(self),
    {
        match self {
            TextureType::Diffuse => String::from_str("texture_diffuse"),
            TextureType::Specular => String::from_str("texture_specular"),
            TextureType::Unknown => vstd::pervasive::unreached(),
        }
    }
}

/// A loaded texture: its GL name, its role and the file it came from.
#[derive(Debug)]
pub struct Texture {
    pub id: u32,
    pub texture_type: TextureType,
    pub path: String,
}

impl View for Texture {
    type V = (u32, TextureType, Seq<char>);

    open spec fn view(&self) -> (u32, TextureType, Seq<char>) {
        (self.id, self.texture_type, self.path@)
    }
}

impl Clone for Texture {
    fn clone(&self) -> (copy: Self)
        ensures
            copy@ == self@,
    {
        Texture { id: self.id, texture_type: self.texture_type, path: self.path.clone() }
    }
}

/// The decimal digit `d` as a character.
pub open spec fn digit_char(d: nat) -> char {
    if d == 0 {
        '0'
    } else if d == 1 {
        '1'
    } else if d == 2 {
        '2'
    } else if d == 3 {
        '3'
    } else if d == 4 {
        '4'
    } else if d == 5 {
        '5'
    } else if d == 6 {
        '6'
    } else if d == 7 {
        '7'
    } else if d == 8 {
        '8'
    } else {
        '9'
    }
}

/// The decimal representation of `n`, without leading zeros.
pub open spec fn decimal(n: nat) -> Seq<char>
    decreases n,
{
    if n < 10 {
        seq![digit_char(n)]
    } else {
        decimal(n / 10).push(digit_char(n % 10))
    }
}

fn digit_str(d: u32) -> (s: &'static str)
    requires
        d < 10,
    ensures
        s@ == seq![digit_char(d as nat)],
{
    proof {
        reveal_strlit("0");
        reveal_strlit("1");
        reveal_strlit("2");
        reveal_strlit("3");
        reveal_strlit("4");
        reveal_strlit("5");
        reveal_strlit("6");
        reveal_strlit("7");
        reveal_strlit("8");
        reveal_strlit("9");
    }
    let s = if d == 0 {
        "0"
    } else if d == 1 {
        "1"
    } else if d == 2 {
        "2"
    } else if d == 3 {
        "3"
    } else if d == 4 {
        "4"
    } else if d == 5 {
        "5"
    } else if d == 6 {
        "6"
    } else if d == 7 {
        "7"
    } else if d == 8 {
        "8"
    } else {
        "9"
    };
    assert(s@ =~= seq![digit_char(d as nat)]);
    s
}

/// Appends the decimal representation of `n` to `text`.
fn push_decimal(text: &mut String, n: u32)
    ensures
        final(text)@ == old(text)@ + decimal(n as nat),
    decreases n,
{
    if n >= 10 {
        push_decimal(text, n / 10);
    }
    text.append(digit_str(n % 10));
    assert(final(text)@ =~= old(text)@ + decimal(n as nat));
}

/// Number of textures among the first `count` of `types` that have role `t`.
pub open spec fn role_rank(types: Seq<TextureType>, count: int, t: TextureType) -> nat
    decreases count,
{
    if count <= 0 {
        0
    } else {
        role_rank(types, count - 1, t) + if types[count - 1] == t {
            1nat
        } else {
            0nat
        }
    }
}

proof fn lemma_role_rank_bounded(types: Seq<TextureType>, count: int, t: TextureType)
    ensures
        role_rank(types, count, t) <= if count < 0 {
            0
        } else {
            count
        },
    decreases count,
{
    if count > 0 {
        lemma_role_rank_bounded(types, count - 1, t);
    }
}

/// The sampler uniform that texture `i` of a mesh binds to: `material.`, the
/// role's name, and the texture's rank (from one) among the mesh's textures of
/// the same role.
pub open spec fn uniform_name(types: Seq<TextureType>, i: int) -> Seq<char> {
    "material."@ + texture_type_name(types[i]) + decimal(role_rank(types, i + 1, types[i]))
}

/// The roles of a list of textures.
pub open spec fn roles(textures: Seq<Texture>) -> Seq<TextureType> {
    textures.map_values(|t: Texture| t.texture_type)
}

/// The sampler uniform names a mesh binds its textures to, in texture order:
/// diffuse textures are numbered `texture_diffuse1`, `texture_diffuse2`, ... and
/// specular ones likewise.
pub fn texture_uniform_names(textures: &Vec<Texture>) -> (names: Vec<String>)
    requires
        textures@.len() <= i32::MAX,
        forall|i: int|
            0 <= i < textures@.len() ==> (#[trigger] textures@[i]).texture_type
                != TextureType::Unknown,
    ensures
        names@.len() == textures@.len(),
        forall|i: int|
            0 <= i < textures@.len() ==> (#[trigger] names@[i])@ == uniform_name(
                roles(textures@),
                i,
            ),
{
    let ghost types = roles(textures@);
    let mut names: Vec<String> = Vec::new();
    let mut diffuse_nr: i32 = 0;
    let mut specular_nr: i32 = 0;
    let mut i: usize = 0;
    while i < textures.len()
        invariant
            i <= textures@.len(),
            textures@.len() <= i32::MAX,
            types == roles(textures@),
            forall|j: int|
                0 <= j < textures@.len() ==> (#[trigger] textures@[j]).texture_type
                    != TextureType::Unknown,
            diffuse_nr == role_rank(types, i as int, TextureType::Diffuse),
            specular_nr == role_rank(types, i as int, TextureType::Specular),
            names@.len() == i,
            forall|j: int| 0 <= j < i ==> (#[trigger] names@[j])@ == uniform_name(types, j),
        decreases textures@.len() - i,
    {
        let texture_type = textures[i].texture_type;
        assert(types[i as int] == texture_type);
        proof {
            lemma_role_rank_bounded(types, i as int, TextureType::Diffuse);
            lemma_role_rank_bounded(types, i as int, TextureType::Specular);
        }
        let index = match texture_type {
            TextureType::Diffuse => {
                diffuse_nr = diffuse_nr + 1;
                diffuse_nr
            },
            TextureType::Specular => {
                specular_nr = specular_nr + 1;
                specular_nr
            },
            TextureType::Unknown => vstd::pervasive::unreached(),
        };
        let mut name = String::from_str("material.");
        let role = texture_type.name();
        name.append(role.as_str());
        push_decimal(&mut name, index as u32);
        assert(name@ == uniform_name(types, i as int));
        names.push(name);
        i = i + 1;
    }
    names
}

/// Whether a path contains a slash, and where the last one stands.
pub open spec fn last_slash(path: Seq<char>) -> Option<int> {
    if exists|i: int| 0 <= i < path.len() && path[i] == '/' && forall|j: int| i < j < path.len() ==> path[j] != '/' {
        Some(choose|i: int| 0 <= i < path.len() && path[i] == '/' && forall|j: int| i < j < path.len() ==> path[j] != '/')
    } else {
        None
    }
}

/// Finds the last slash of `path`, scanning from its end.
fn find_last_slash(path: &str) -> (found: Option<usize>)
    ensures
        match found {
            Some(i) => {
                &&& i < path@.len()
                &&& path@[i as int] == '/'
                &&& forall|j: int| i < j < path@.len() ==> path@[j] != '/'
            },
            None => forall|j: int| 0 <= j < path@.len() ==> path@[j] != '/',
        },
{
    let mut i = path.unicode_len();
    while i > 0
        invariant
            i <= path@.len(),
            forall|j: int| i <= j < path@.len() ==> path@[j] != '/',
        decreases i,
    {
        i = i - 1;
        if path.get_char(i) == '/' {
            return Some(i);
        }
    }
    None
}

proof fn lemma_last_slash(path: Seq<char>, i: int)
    requires
        0 <= i < path.len(),
        path[i] == '/',
        forall|j: int| i < j < path.len() ==> path[j] != '/',
    ensures
        last_slash(path) == Some(i),
{
    let k = choose|k: int|
        0 <= k < path.len() && path[k] == '/' && forall|j: int| k < j < path.len() ==> path[j] != '/';
    assert(path[k] == '/');
    if k < i {
        assert(path[i] != '/');
    }
    if k > i {
        assert(path[k] != '/');
    }
}

/// The directory a model file lies in: the path up to (not including) its last
/// slash, or the whole path when it has none.
pub fn directory_of(path: &str) -> (directory: String)
    ensures
        directory@ == match last_slash(path@) {
            Some(i) => path@.subrange(0, i),
            None => path@,
        },
{
    match find_last_slash(path) {
        Some(i) => {
            proof {
                lemma_last_slash(path@, i as int);
            }
            String::from_str(path.substring_char(0, i))
        },
        None => String::from_str(path),
    }
}

/// The part of a model path from its last slash on (the slash included), or the
/// whole path when it has none.
pub fn directory_suffix_of(path: &str) -> (suffix: String)
    ensures
        suffix@ == match last_slash(path@) {
            Some(i) => path@.subrange(i, path@.len() as int),
            None => path@,
        },
{
    match find_last_slash(path) {
        Some(i) => {
            proof {
                lemma_last_slash(path@, i as int);
            }
            String::from_str(path.substring_char(i, path.unicode_len()))
        },
        None => String::from_str(path),
    }
}

/// The path of a texture file named in a material of a model in `directory`.
pub fn texture_file_path(directory: &str, file_name: &str) -> (path: String)
    ensures
        path@ == directory@ + "/"@ + file_name@,
{
    let mut path = String::from_str(directory);
    path.append("/");
    path.append(file_name);
    path
}

/// The first texture of `textures` that was loaded from `path`.
pub open spec fn first_with_path(textures: Seq<(u32, TextureType, Seq<char>)>, path: Seq<char>) -> Option<int> {
    if exists|i: int| 0 <= i < textures.len() && textures[i].2 == path && forall|j: int| 0 <= j < i ==> textures[j].2 != path {
        Some(choose|i: int| 0 <= i < textures.len() && textures[i].2 == path && forall|j: int| 0 <= j < i ==> textures[j].2 != path)
    } else {
        None
    }
}

/// Finds the first texture of `textures` loaded from `path`.
pub fn find_loaded(textures: &Vec<Texture>, path: &String) -> (found: Option<usize>)
    ensures
        match found {
            Some(i) => first_with_path(texture_views(textures@), path@) == Some(i as int),
            None => first_with_path(texture_views(textures@), path@) is None,
        },
{
    let ghost views = texture_views(textures@);
    let mut i: usize = 0;
    while i < textures.len()
        invariant
            i <= textures@.len(),
            views == texture_views(textures@),
            forall|j: int| 0 <= j < i ==> views[j].2 != path@,
        decreases textures@.len() - i,
    {
        if textures[i].path == *path {
            proof {
                assert(views[i as int].2 == path@);
                let k = choose|k: int|
                    0 <= k < views.len() && views[k].2 == path@ && forall|j: int|
                        0 <= j < k ==> views[j].2 != path@;
                if k < i {
                    assert(views[k].2 != path@);
                }
                if k > i {
                    assert(views[i as int].2 != path@);
                }
            }
            return Some(i);
        }
        i = i + 1;
    }
    proof {
        if exists|k: int| 0 <= k < views.len() && views[k].2 == path@ {
            let k = choose|k: int| 0 <= k < views.len() && views[k].2 == path@;
            assert(views[k].2 != path@);
        }
    }
    None
}

/// What a list of textures reads as.
pub open spec fn texture_views(textures: Seq<Texture>) -> Seq<(u32, TextureType, Seq<char>)> {
    textures.map_values(|t: Texture| t@)
}

/// Where the `k`-th texture of a material lies.
pub open spec fn material_path(directory: Seq<char>, file_names: Seq<String>, k: int) -> Seq<char> {
    directory + "/"@ + file_names[k]@
}

/// Entry `m` of `textures` is what loading the `m`-th file of a material gives
/// when the library held `loaded` before: the first recorded texture of that path
/// (counting the textures returned before it), or else a texture of role
/// `texture_type` read from that path by `load`.
#[verifier::opaque]
pub open spec fn loaded_entry<L: Fn(&String) -> u32>(
    loaded: Seq<(u32, TextureType, Seq<char>)>,
    directory: Seq<char>,
    file_names: Seq<String>,
    texture_type: TextureType,
    load: L,
    textures: Seq<Texture>,
    m: int,
) -> bool {
    let path = material_path(directory, file_names, m);
    let cache = loaded + texture_views(textures).take(m);
    match first_with_path(cache, path) {
        Some(j) => textures[m]@ == cache[j],
        None => {
            &&& textures[m].texture_type == texture_type
            &&& textures[m].path@ == path
            &&& call_ensures(load, (&textures[m].path,), textures[m].id)
        },
    }
}

proof fn lemma_loaded_entry_push<L: Fn(&String) -> u32>(
    loaded: Seq<(u32, TextureType, Seq<char>)>,
    directory: Seq<char>,
    file_names: Seq<String>,
    texture_type: TextureType,
    load: L,
    textures: Seq<Texture>,
    next: Texture,
    m: int,
)
    requires
        0 <= m < textures.len(),
        loaded_entry(loaded, directory, file_names, texture_type, load, textures, m),
    ensures
        loaded_entry(loaded, directory, file_names, texture_type, load, textures.push(next), m),
{
    reveal(loaded_entry);
    assert(texture_views(textures.push(next)).take(m) =~= texture_views(textures).take(m));
    assert(textures.push(next)[m] == textures[m]);
}

proof fn lemma_loaded_entry_new<L: Fn(&String) -> u32>(
    loaded: Seq<(u32, TextureType, Seq<char>)>,
    directory: Seq<char>,
    file_names: Seq<String>,
    texture_type: TextureType,
    load: L,
    textures: Seq<Texture>,
    next: Texture,
)
    requires
        textures.len() < file_names.len(),
        match first_with_path(loaded + texture_views(textures), material_path(directory, file_names, textures.len() as int)) {
            Some(j) => next@ == (loaded + texture_views(textures))[j],
            None => {
                &&& next.texture_type == texture_type
                &&& next.path@ == material_path(directory, file_names, textures.len() as int)
                &&& call_ensures(load, (&next.path,), next.id)
            },
        },
    ensures
        loaded_entry(loaded, directory, file_names, texture_type, load, textures.push(next), textures.len() as int),
{
    reveal(loaded_entry);
    let k = textures.len() as int;
    assert(texture_views(textures.push(next)).take(k) =~= texture_views(textures));
    assert(textures.push(next)[k] == next);
}

proof fn lemma_first_exists(textures: Seq<(u32, TextureType, Seq<char>)>, path: Seq<char>, i: int)
    requires
        0 <= i < textures.len(),
        textures[i].2 == path,
    ensures
        first_with_path(textures, path) is Some,
    decreases i,
{
    if exists|j: int| 0 <= j < i && textures[j].2 == path {
        let j = choose|j: int| 0 <= j < i && textures[j].2 == path;
        lemma_first_exists(textures, path, j);
    } else {
        assert(0 <= i < textures.len() && textures[i].2 == path && forall|j: int|
            0 <= j < i ==> textures[j].2 != path);
    }
}

/// What loading a material's textures gives for its `k`-th file: the texture
/// comes from that file in the library's directory. A file that neither the
/// library (`loaded`) nor an earlier file of the material had loaded is read with
/// `load` and gets the role the material asked for. A file the library had loaded
/// is the library's first texture of that path; a file loaded only by an earlier
/// file of this material is the first such earlier texture.
pub proof fn lemma_material_texture<L: Fn(&String) -> u32>(
    loaded: Seq<(u32, TextureType, Seq<char>)>,
    directory: Seq<char>,
    file_names: Seq<String>,
    texture_type: TextureType,
    load: L,
    textures: Seq<Texture>,
    k: int,
)
    requires
        0 <= k < textures.len(),
        loaded_entry(loaded, directory, file_names, texture_type, load, textures, k),
    ensures
        textures[k].path@ == material_path(directory, file_names, k),
        (forall|j: int| 0 <= j < loaded.len() ==> loaded[j].2 != material_path(directory, file_names, k))
            && (forall|j: int| 0 <= j < k ==> textures[j].path@ != material_path(directory, file_names, k))
            ==> {
            &&& textures[k].texture_type == texture_type
            &&& call_ensures(load, (&textures[k].path,), textures[k].id)
        },
        (exists|j: int| 0 <= j < loaded.len() && loaded[j].2 == material_path(directory, file_names, k))
            ==> exists|j: int|
            0 <= j < loaded.len() && textures[k]@ == loaded[j] && forall|i: int|
                0 <= i < j ==> loaded[i].2 != material_path(directory, file_names, k),
        (forall|j: int| 0 <= j < loaded.len() ==> loaded[j].2 != material_path(directory, file_names, k))
            && (exists|j: int| 0 <= j < k && textures[j].path@ == material_path(directory, file_names, k))
            ==> exists|j: int|
            0 <= j < k && textures[k]@ == textures[j]@ && forall|i: int|
                0 <= i < j ==> textures[i].path@ != material_path(directory, file_names, k),
{
    reveal(loaded_entry);
    let path = material_path(directory, file_names, k);
    let cache = loaded + texture_views(textures).take(k);
    let n = loaded.len() as int;
    assert forall|j: int| 0 <= j < k implies #[trigger] cache[n + j] == textures[j]@ by {
        assert(cache[n + j] == texture_views(textures).take(k)[j]);
    }
    assert forall|j: int| 0 <= j < n implies #[trigger] cache[j] == loaded[j] by {}
    match first_with_path(cache, path) {
        Some(j) => {
            assert(0 <= j < cache.len() && cache[j].2 == path && forall|i: int|
                0 <= i < j ==> cache[i].2 != path);
            assert(textures[k]@ == cache[j]);
            if j < n {
                assert(cache[j] == loaded[j]);
                assert forall|i: int| 0 <= i < j implies loaded[i].2 != path by {
                    assert(cache[i] == loaded[i]);
                }
            } else {
                assert(cache[n + (j - n)] == textures[j - n]@);
                assert forall|i: int| 0 <= i < j - n implies textures[i].path@ != path by {
                    assert(cache[n + i] == textures[i]@);
                }
                assert forall|i: int| 0 <= i < n implies loaded[i].2 != path by {
                    assert(cache[i] == loaded[i]);
                }
            }
        },
        None => {
            if exists|j: int| 0 <= j < n && loaded[j].2 == path {
                let j = choose|j: int| 0 <= j < n && loaded[j].2 == path;
                assert(cache[j] == loaded[j]);
                lemma_first_exists(cache, path, j);
            }
            if exists|j: int| 0 <= j < k && textures[j].path@ == path {
                let j = choose|j: int| 0 <= j < k && textures[j].path@ == path;
                assert(cache[n + j] == textures[j]@);
                lemma_first_exists(cache, path, n + j);
            }
        },
    }
}

/// The textures of the models loaded so far, shared between them: a texture file
/// is read once and reused by every material that names it again.
pub struct TextureLibrary {
    pub directory: String,
    pub textures_loaded: Vec<Texture>,
}

impl TextureLibrary {
    /// A library for the model files in `directory`, with nothing loaded yet.
    pub fn new(directory: String) -> (library: Self)
        ensures
            library.directory@ == directory@,
            library.textures_loaded@.len() == 0,
    {
        TextureLibrary { directory, textures_loaded: Vec::new() }
    }

    /// The textures of role `texture_type` that a material names, in order.
    /// `file_names` are the material's file names of that role. A file that was
    /// loaded before is taken from the library (its first entry); any other file
    /// is read with `load`, which gives its GL name. Every texture returned is also
    /// recorded in the library, after those recorded before. A role other than
    /// diffuse or specular yields nothing.
    pub fn load_material_textures<L: Fn(&String) -> u32>(
        &mut self,
        file_names: &Vec<String>,
        texture_type: TextureType,
        load: &L,
    ) -> (textures: Vec<Texture>)
        requires
            forall|path: &String| load.requires((path,)),
        ensures
            final(self).directory@ == old(self).directory@,
            texture_type == TextureType::Unknown ==> {
                &&& textures@.len() == 0
                &&& texture_views(final(self).textures_loaded@) == texture_views(
                    old(self).textures_loaded@,
                )
            },
            texture_type != TextureType::Unknown ==> {
                &&& textures@.len() == file_names@.len()
                &&& texture_views(final(self).textures_loaded@) == texture_views(
                    old(self).textures_loaded@,
                ) + texture_views(textures@)
                &&& forall|k: int|
                    0 <= k < textures@.len() ==> #[trigger] loaded_entry(
                        texture_views(old(self).textures_loaded@),
                        old(self).directory@,
                        file_names@,
                        texture_type,
                        *load,
                        textures@,
                        k,
                    )
            },
    {
        let mut textures: Vec<Texture> = Vec::new();
        if texture_type == TextureType::Unknown {
            return textures;
        }
        let ghost old_loaded = texture_views(self.textures_loaded@);
        let ghost directory = self.directory@;
        let mut k: usize = 0;
        while k < file_names.len()
            invariant
                k <= file_names@.len(),
                forall|path: &String| load.requires((path,)),
                texture_type != TextureType::Unknown,
                self.directory@ == directory,
                directory == old(self).directory@,
                old_loaded == texture_views(old(self).textures_loaded@),
                textures@.len() == k,
                texture_views(self.textures_loaded@) == old_loaded + texture_views(textures@),
                forall|m: int|
                    0 <= m < k ==> #[trigger] loaded_entry(
                        old_loaded,
                        directory,
                        file_names@,
                        texture_type,
                        *load,
                        textures@,
                        m,
                    ),
            decreases file_names@.len() - k,
        {
            let file = texture_file_path(self.directory.as_str(), file_names[k].as_str());
            let ghost before = textures@;
            let texture = match find_loaded(&self.textures_loaded, &file) {
                Some(j) => self.textures_loaded[j].clone(),
                None => {
                    let id = load(&file);
                    Texture { id, texture_type, path: file }
                },
            };
            proof {
                lemma_loaded_entry_new(
                    old_loaded,
                    directory,
                    file_names@,
                    texture_type,
                    *load,
                    before,
                    texture,
                );
            }
            let ghost loaded_before = self.textures_loaded@;
            self.textures_loaded.push(texture.clone());
            textures.push(texture);
            proof {
                assert(textures@ == before.push(texture));
                assert(texture_views(self.textures_loaded@) =~= texture_views(loaded_before).push(texture@));
                assert(texture_views(textures@) =~= texture_views(before).push(texture@));
                assert(texture_views(self.textures_loaded@) =~= old_loaded + texture_views(
                    textures@,
                ));
                assert forall|m: int| 0 <= m < k + 1 implies #[trigger] loaded_entry(
                    old_loaded,
                    directory,
                    file_names@,
                    texture_type,
                    *load,
                    textures@,
                    m,
                ) by {
                    if m < k {
                        lemma_loaded_entry_push(
                            old_loaded,
                            directory,
                            file_names@,
                            texture_type,
                            *load,
                            before,
                            texture,
                            m,
                        );
                    }
                }
            }
            k = k + 1;
        }
        textures
    }
}

} // verus!
