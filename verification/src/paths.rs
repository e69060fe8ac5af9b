//! Where the files are: the home of the data, the root of the profiles, and the files of the
//! program itself.
//!
//! A path is written down as a place that only the machine knows, how often to go up from
//! there, and the names that follow.
use vstd::prelude::*;
use vstd::string::*;

use crate::text::{copy_texts, text_eq, texts, trim, trimmed};

verus! {

// ---------------------------------------------------------------------------
// Paths
// ---------------------------------------------------------------------------

/// A place that a path starts from.
#[derive(Debug, PartialEq, Eq)]
pub enum Anchor {
    /// The path with this text.
    Given(String),
    /// The home directory of the user.
    UserHome,
    /// The directory in which the program runs.
    WorkingDir,
    /// The directory from which the program was built.
    ManifestDir,
}

/// A path: from a place, up so many times, and then along the names.
#[derive(Debug, PartialEq, Eq)]
pub struct HermesPath {
    pub anchor: Anchor,
    pub up: usize,
    pub names: Vec<String>,
}

/// A place that a path starts from, by its contents.
pub enum Place {
    Given(Seq<char>),
    UserHome,
    WorkingDir,
    ManifestDir,
}

/// What a path says.
pub struct Location {
    pub place: Place,
    pub up: nat,
    pub names: Seq<Seq<char>>,
}

impl View for Anchor {
    type V = Place;

    open spec fn view(&self) -> Place {
        match self {
            Anchor::Given(s) => Place::Given(s@),
            Anchor::UserHome => Place::UserHome,
            Anchor::WorkingDir => Place::WorkingDir,
            Anchor::ManifestDir => Place::ManifestDir,
        }
    }
}

impl View for HermesPath {
    type V = Location;

    open spec fn view(&self) -> Location {
        Location { place: self.anchor@, up: self.up as nat, names: texts(self.names@) }
    }
}

/// The path of a place itself.
pub open spec fn at(place: Place) -> Location {
    Location { place, up: 0, names: Seq::empty() }
}

impl Location {
    /// The path of `name` under this path.
    pub open spec fn join(self, name: Seq<char>) -> Location {
        Location { names: self.names.push(name), ..self }
    }

    /// The path that this path stands under.
    pub open spec fn parent(self) -> Location {
        if self.names.len() > 0 {
            Location { names: self.names.drop_last(), ..self }
        } else {
            Location { up: self.up + 1, ..self }
        }
    }
}

impl HermesPath {
    /// The path of a place itself.
    pub fn from(anchor: Anchor) -> (r: HermesPath)
        ensures
            r@ == at(anchor@),
    {
        let r = HermesPath { anchor, up: 0, names: Vec::new() };
        assert(texts(r.names@) =~= Seq::<Seq<char>>::empty());
        r
    }

    /// The path of `name` under this path.
    pub fn join(self, name: &str) -> (r: HermesPath)
        ensures
            r@ == self@.join(name@),
    {
        let HermesPath { anchor, up, names } = self;
        let mut names = names;
        let ghost before = texts(names@);
        names.push(name.to_owned());
        assert(texts(names@) =~= before.push(name@));
        HermesPath { anchor, up, names }
    }

    /// A copy of the path.
    pub fn copy(&self) -> (r: HermesPath)
        ensures
            r@ == self@,
    {
        let anchor = match &self.anchor {
            Anchor::Given(s) => Anchor::Given(s.clone()),
            Anchor::UserHome => Anchor::UserHome,
            Anchor::WorkingDir => Anchor::WorkingDir,
            Anchor::ManifestDir => Anchor::ManifestDir,
        };
        HermesPath { anchor, up: self.up, names: copy_texts(&self.names) }
    }
}

// ---------------------------------------------------------------------------
// The home of the data
// ---------------------------------------------------------------------------

/// The directory under the home of the user in which the data are kept, or in the working
/// directory where the user has no home.
pub open spec fn native_home(has_user_home: bool) -> Location {
    at(
        if has_user_home {
            Place::UserHome
        } else {
            Place::WorkingDir
        },
    ).join(".hermes"@)
}

/// The home of the data: the path that `HERMES_HOME` gives, as it stands, and else the native
/// one.
pub open spec fn hermes_home(env: Option<Seq<char>>, has_user_home: bool) -> Location {
    match env {
        Some(s) => at(Place::Given(s)),
        None => native_home(has_user_home),
    }
}

/// The directory of the data where nothing else is said.
pub fn native_hermes_home(has_user_home: bool) -> (r: HermesPath)
    ensures
        r@ == native_home(has_user_home),
{
    let anchor = if has_user_home {
        Anchor::UserHome
    } else {
        Anchor::WorkingDir
    };
    HermesPath::from(anchor).join(".hermes")
}

/// The home of the data, from the value of `HERMES_HOME` and whether the user has a home
/// directory.
pub fn resolve_hermes_home(env: Option<String>, has_user_home: bool) -> (r: HermesPath)
    ensures
        r@ == hermes_home(
            match env {
                Some(s) => Some(s@),
                None => None,
            },
            has_user_home,
        ),
{
    match env {
        Some(s) => HermesPath::from(Anchor::Given(s)),
        None => native_hermes_home(has_user_home),
    }
}

/// The configuration file of a home.
pub fn hermes_config_path(home: HermesPath) -> (r: HermesPath)
    ensures
        r@ == home@.join("config.yaml"@),
{
    home.join("config.yaml")
}

/// The file with the environment variables of a home.
pub fn hermes_env_path(home: HermesPath) -> (r: HermesPath)
    ensures
        r@ == home@.join(".env"@),
{
    home.join(".env")
}

/// The directory with the logs of a home.
pub fn hermes_logs_dir(home: HermesPath) -> (r: HermesPath)
    ensures
        r@ == home@.join("logs"@),
{
    home.join("logs")
}

/// The directory with the skills of a home.
pub fn hermes_skills_dir(home: HermesPath) -> (r: HermesPath)
    ensures
        r@ == home@.join("skills"@),
{
    home.join("skills")
}

/// The session database of a home.
pub fn session_db_path(home: HermesPath) -> (r: HermesPath)
    ensures
        r@ == home@.join("state.db"@),
{
    home.join("state.db")
}

// ---------------------------------------------------------------------------
// The root of the profiles
// ---------------------------------------------------------------------------

/// A part of a path as the machine splits it.
#[derive(Debug, PartialEq, Eq)]
pub enum Part {
    /// A drive or a share.
    Prefix(String),
    /// The root directory.
    Root,
    /// The directory itself.
    Current,
    /// The directory above.
    Parent,
    /// A name.
    Name(String),
    /// A name that is not text.
    Foreign,
}

/// A part of a path, by its contents.
pub enum Piece {
    Prefix(Seq<char>),
    Root,
    Current,
    Parent,
    Name(Seq<char>),
    Foreign,
}

impl View for Part {
    type V = Piece;

    open spec fn view(&self) -> Piece {
        match self {
            Part::Prefix(s) => Piece::Prefix(s@),
            Part::Root => Piece::Root,
            Part::Current => Piece::Current,
            Part::Parent => Piece::Parent,
            Part::Name(s) => Piece::Name(s@),
            Part::Foreign => Piece::Foreign,
        }
    }
}

/// The parts of a path, by their contents.
pub open spec fn pieces(v: Seq<Part>) -> Seq<Piece> {
    Seq::new(v.len(), |i: int| v[i]@)
}

/// The path stands in a directory with this name: it has a last part that can be taken away,
/// and before it the name.
pub open spec fn stands_under(p: Seq<Piece>, name: Seq<char>) -> bool {
    &&& p.len() >= 2
    &&& match p.last() {
        Piece::Name(_) | Piece::Foreign | Piece::Current | Piece::Parent => true,
        Piece::Prefix(_) | Piece::Root => false,
    }
    &&& p[p.len() - 2] == Piece::Name(name)
}

/// The first path is the second, or stands under it.
pub open spec fn is_within(p: Seq<Piece>, q: Seq<Piece>) -> bool {
    q.len() <= p.len() && p.take(q.len() as int) == q
}

/// The root of the profiles: the native home where `HERMES_HOME` says nothing or a path within
/// it; the directory above `profiles` where it says a path in one of that name; and else the
/// path that it says.
pub open spec fn profiles_root(
    env: Seq<char>,
    env_parts: Seq<Piece>,
    native: Location,
    native_parts: Seq<Piece>,
) -> Location {
    let t = trim(env);
    if t.len() == 0 || is_within(env_parts, native_parts) {
        native
    } else if stands_under(env_parts, "profiles"@) {
        Location { place: Place::Given(t), up: 2, names: Seq::empty() }
    } else {
        at(Place::Given(t))
    }
}

/// Whether two parts are the same.
fn part_eq(a: &Part, b: &Part) -> (r: bool)
    ensures
        r == (a@ == b@),
{
    match (a, b) {
        (Part::Prefix(x), Part::Prefix(y)) => text_eq(x.as_str(), y.as_str()),
        (Part::Root, Part::Root) => true,
        (Part::Current, Part::Current) => true,
        (Part::Parent, Part::Parent) => true,
        (Part::Name(x), Part::Name(y)) => text_eq(x.as_str(), y.as_str()),
        (Part::Foreign, Part::Foreign) => true,
        _ => false,
    }
}

/// Whether the first path is the second or stands under it.
fn starts_with(p: &Vec<Part>, q: &Vec<Part>) -> (r: bool)
    ensures
        r == is_within(pieces(p@), pieces(q@)),
{
    if q.len() > p.len() {
        return false;
    }
    let mut i: usize = 0;
    while i < q.len()
        invariant
            i <= q@.len() <= p@.len(),
            forall|j: int| 0 <= j < i ==> pieces(p@)[j] == pieces(q@)[j],
        decreases q@.len() - i,
    {
        if !part_eq(&p[i], &q[i]) {
            assert(pieces(p@).take(q@.len() as int)[i as int] != pieces(q@)[i as int]);
            return false;
        }
        i = i + 1;
    }
    assert(pieces(p@).take(q@.len() as int) =~= pieces(q@));
    true
}

/// Whether the path stands in a directory with this name.
fn parent_is_named(p: &Vec<Part>, name: &str) -> (r: bool)
    ensures
        r == stands_under(pieces(p@), name@),
{
    let n: usize = p.len();
    if n < 2 {
        return false;
    }
    assert(pieces(p@).last() == p@[n - 1]@);
    assert(pieces(p@)[n - 2] == p@[n - 2]@);
    match &p[n - 1] {
        Part::Prefix(_) => {
            return false;
        },
        Part::Root => {
            return false;
        },
        _ => {},
    }
    match &p[n - 2] {
        Part::Name(s) => text_eq(s.as_str(), name),
        _ => false,
    }
}

/// The path that `HERMES_HOME` says for the root of the profiles: its value without white
/// space around it, where anything is left.
pub fn env_root_text(env: &str) -> (r: Option<String>)
    ensures
        match r {
            Some(s) => s@ == trim(env@) && s@.len() > 0,
            None => trim(env@).len() == 0,
        },
{
    let t = trimmed(env);
    if t.unicode_len() == 0 {
        None
    } else {
        Some(t.to_owned())
    }
}

/// The root of the profiles, from the value of `HERMES_HOME`, the parts of the path that it
/// says, the native home and its parts.
pub fn default_hermes_root(
    env: &str,
    env_parts: &Vec<Part>,
    native: HermesPath,
    native_parts: &Vec<Part>,
) -> (r: HermesPath)
    ensures
        r@ == profiles_root(env@, pieces(env_parts@), native@, pieces(native_parts@)),
{
    match env_root_text(env) {
        None => native,
        Some(t) => if starts_with(env_parts, native_parts) {
            native
        } else {
            let mut r = HermesPath::from(Anchor::Given(t));
            if parent_is_named(env_parts, "profiles") {
                r.up = 2;
            }
            r
        },
    }
}

/// The home of a profile under the root of the profiles.
pub open spec fn profile_home(root: Location, name: Seq<char>) -> Location {
    if name == "default"@ {
        root
    } else {
        root.join("profiles"@).join(name)
    }
}

/// The home of a profile under the root of the profiles.
pub fn profile_home_dir(root: HermesPath, normalized: &str) -> (r: HermesPath)
    ensures
        r@ == profile_home(root@, normalized@),
{
    if text_eq(normalized, "default") {
        root
    } else {
        root.join("profiles").join(normalized)
    }
}

// ---------------------------------------------------------------------------
// The files of the program
// ---------------------------------------------------------------------------

/// The directory above the one from which the program was built.
pub open spec fn program_root() -> Location {
    Location { place: Place::ManifestDir, up: 1, names: Seq::empty() }
}

/// The directory above the one from which the program was built.
pub fn hermes_os_root() -> (r: HermesPath)
    ensures
        r@ == program_root(),
        r@ == at(Place::ManifestDir).parent(),
{
    let mut r = HermesPath::from(Anchor::ManifestDir);
    r.up = 1;
    r
}

/// The script that starts the sidecar.
pub fn get_sidecar_entry_path() -> (r: HermesPath)
    ensures
        r@ == program_root().join("scripts"@).join("sidecar_entry.py"@),
{
    hermes_os_root().join("scripts").join("sidecar_entry.py")
}

/// The packaged sidecar with this file name.
pub fn packaged_sidecar_path(exe: &str) -> (r: HermesPath)
    ensures
        r@ == at(Place::ManifestDir).join("binaries"@).join(exe@),
{
    HermesPath::from(Anchor::ManifestDir).join("binaries").join(exe)
}

/// A helper script with this file name.
pub fn helper_script_path(script: &str) -> (r: HermesPath)
    ensures
        r@ == at(Place::ManifestDir).join("../scripts/"@).join(script@),
{
    HermesPath::from(Anchor::ManifestDir).join("../scripts/").join(script)
}

// ---------------------------------------------------------------------------
// Laws
// ---------------------------------------------------------------------------

/// The parts of a path, where `base` are those of the place that it starts from, and every
/// name is one part.
pub open spec fn located(base: Seq<Piece>, l: Location) -> Seq<Piece> {
    base.take(base.len() - l.up) + Seq::new(l.names.len(), |i: int| Piece::Name(l.names[i]))
}

/// What stands under a path has that path for its parent.
pub proof fn law_join_parent(l: Location, name: Seq<char>)
    ensures
        l.join(name).parent() == l,
{
    assert(l.names.push(name).drop_last() =~= l.names);
}

/// The parent of a path has the same parts but for the last.
pub proof fn law_parent_parts(base: Seq<Piece>, l: Location)
    requires
        l.up + 1 <= base.len(),
    ensures
        located(base, l.parent()) == located(base, l).drop_last(),
{
    assert(located(base, l.parent()) =~= located(base, l).drop_last());
}

/// A home that is a profile in a directory `profiles` leads to the directory that holds
/// `profiles`, unless it stands within the native home.
pub proof fn law_profile_leads_to_its_root(
    env: Seq<char>,
    root: Seq<Piece>,
    profile: Seq<char>,
    native: Location,
    native_parts: Seq<Piece>,
)
    requires
        trim(env).len() > 0,
        !is_within(
            root.push(Piece::Name("profiles"@)).push(Piece::Name(profile)),
            native_parts,
        ),
    ensures
        ({
            let parts = root.push(Piece::Name("profiles"@)).push(Piece::Name(profile));
            located(parts, profiles_root(env, parts, native, native_parts)) == root
        }),
{
    let parts = root.push(Piece::Name("profiles"@)).push(Piece::Name(profile));
    assert(located(parts, profiles_root(env, parts, native, native_parts)) =~= root);
}

/// Different profiles have different homes.
pub proof fn law_profile_homes_differ(root: Location, a: Seq<char>, b: Seq<char>)
    requires
        a != b,
    ensures
        profile_home(root, a) != profile_home(root, b),
{
    let pa = root.names.push("profiles"@).push(a);
    let pb = root.names.push("profiles"@).push(b);
    assert(pa.last() == a);
    assert(pb.last() == b);
    assert(pa.len() == root.names.len() + 2);
    assert(pb.len() == root.names.len() + 2);
}

/// The native home is the home of the data where `HERMES_HOME` is not set, and the root of the
/// profiles too.
pub proof fn law_native_home(has_user_home: bool, native_parts: Seq<Piece>, env_parts: Seq<Piece>)
    ensures
        hermes_home(None, has_user_home) == native_home(has_user_home),
        profiles_root(Seq::empty(), env_parts, native_home(has_user_home), native_parts)
            == native_home(has_user_home),
{
    assert(trim(Seq::empty()).len() == 0);
}

/// A path under another starts from the same place, goes up as often, and ends with the name.
pub proof fn law_join(l: Location, name: Seq<char>)
    ensures
        l.join(name).place == l.place,
        l.join(name).up == l.up,
        l.join(name).names == l.names + seq![name],
{
    assert(l.names.push(name) =~= l.names + seq![name]);
}

/// A path without names has for its parent the path one more time up.
pub proof fn law_parent_of_place(place: Place, up: nat)
    ensures
        ({
            let l = Location { place, up, names: Seq::empty() };
            l.parent().place == place && l.parent().up == up + 1 && l.parent().names.len() == 0
        }),
{
}

/// The data are kept in `.hermes` in the home of the user, or where the user has none in the
/// working directory; where `HERMES_HOME` is set, in the path that it gives, as it stands.
pub proof fn law_hermes_home(env: Seq<char>)
    ensures
        native_home(true).place == Place::UserHome,
        native_home(false).place == Place::WorkingDir,
        native_home(true).names == seq![".hermes"@] && native_home(true).up == 0,
        native_home(false).names == seq![".hermes"@] && native_home(false).up == 0,
        forall|b: bool| #[trigger]
            hermes_home(Some(env), b) == (Location {
                place: Place::Given(env),
                up: 0,
                names: Seq::empty(),
            }),
        forall|b: bool| #[trigger] hermes_home(None, b) == native_home(b),
{
    assert(native_home(true).names =~= seq![".hermes"@]);
    assert(native_home(false).names =~= seq![".hermes"@]);
}

/// A path is within another just where it is that path with parts behind it.
pub proof fn law_within(p: Seq<Piece>, q: Seq<Piece>, r: Seq<Piece>)
    ensures
        is_within(q + r, q),
        is_within(p, q) ==> p == q + p.skip(q.len() as int),
{
    assert((q + r).take(q.len() as int) =~= q);
    if is_within(p, q) {
        assert(p =~= p.take(q.len() as int) + p.skip(q.len() as int));
    }
}

/// A path stands in a directory by the name of its last part but one; a path of one part, or one
/// that ends with the root directory, stands in none.
pub proof fn law_stands_under(
    root: Seq<Piece>,
    name: Seq<char>,
    other: Seq<char>,
    last: Seq<char>,
    p: Piece,
)
    ensures
        stands_under(root.push(Piece::Name(name)).push(Piece::Name(last)), name),
        other != name ==> !stands_under(
            root.push(Piece::Name(other)).push(Piece::Name(last)),
            name,
        ),
        !stands_under(seq![p], name),
        !stands_under(root.push(Piece::Name(name)).push(Piece::Root), name),
{
    let x = root.push(Piece::Name(name)).push(Piece::Name(last));
    let y = root.push(Piece::Name(other)).push(Piece::Name(last));
    let z = root.push(Piece::Name(name)).push(Piece::Root);
    assert(x[x.len() - 2] == Piece::Name(name) && x.last() == Piece::Name(last));
    assert(y[y.len() - 2] == Piece::Name(other));
    assert(z.last() == Piece::Root);
}

/// The root of the profiles is the native home where `HERMES_HOME` is blank or leads into it. Any
/// other path that it says is the root itself, unless it stands in a directory `profiles`: two up
/// from there is the root.
pub proof fn law_profiles_root(
    env: Seq<char>,
    env_parts: Seq<Piece>,
    native: Location,
    native_parts: Seq<Piece>,
)
    ensures
        ({
            let r = profiles_root(env, env_parts, native, native_parts);
            &&& trim(env).len() == 0 ==> r == native
            &&& is_within(env_parts, native_parts) ==> r == native
            &&& trim(env).len() > 0 && !is_within(env_parts, native_parts) ==> {
                &&& r.place == Place::Given(trim(env))
                &&& r.names.len() == 0
                &&& stands_under(env_parts, "profiles"@) ==> r.up == 2
                &&& !stands_under(env_parts, "profiles"@) ==> r.up == 0
            }
        }),
{
}

/// The default profile lives in the root, and any other under its name in `profiles` there.
pub proof fn law_profile_home(root: Location, name: Seq<char>)
    ensures
        profile_home(root, "default"@) == root,
        name != "default"@ ==> profile_home(root, name).names == root.names + seq![
            "profiles"@,
            name,
        ] && profile_home(root, name).place == root.place && profile_home(root, name).up == root.up,
{
    if name != "default"@ {
        assert(profile_home(root, name).names =~= root.names + seq!["profiles"@, name]);
    }
}

/// The files of the program stand beside the directory from which it was built.
pub proof fn law_program_root()
    ensures
        program_root() == at(Place::ManifestDir).parent(),
{
}

/// A path says what it is made of.
pub proof fn law_path(p: HermesPath, s: String, i: int)
    ensures
        p@.up == p.up,
        p@.names.len() == p.names@.len(),
        0 <= i < p.names@.len() ==> p@.names[i] == p.names@[i]@,
        p@.place == p.anchor@,
        Anchor::Given(s)@ == Place::Given(s@),
        Anchor::UserHome@ == Place::UserHome,
        Anchor::WorkingDir@ == Place::WorkingDir,
        Anchor::ManifestDir@ == Place::ManifestDir,
        Part::Name(s)@ == Piece::Name(s@),
        Part::Prefix(s)@ == Piece::Prefix(s@),
        Part::Root@ == Piece::Root,
        Part::Current@ == Piece::Current,
        Part::Parent@ == Piece::Parent,
        Part::Foreign@ == Piece::Foreign,
{
}

} // verus!
