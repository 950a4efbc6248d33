//! Finding the program that runs the proxy.
//!
//! It is looked for beside the running program, where the environment says,
//! among what a development build has made, and on the system's path. Where it is
//! in none of these, the directory above the running program is tried.
//! Whether a file exists is for the caller to find out.

use vstd::prelude::*;

use crate::bytes;
use crate::error::{Error, ErrorKind};
use crate::text;

verus! {

/// The separator between the parts of a path.
pub const SEPARATOR: u8 = 47;

/// `name` inside the directory `dir`.
pub open spec fn joined(dir: Seq<u8>, name: Seq<u8>) -> Seq<u8> {
    if dir.len() == 0 || dir.last() == SEPARATOR {
        dir + name
    } else {
        dir + seq![SEPARATOR] + name
    }
}

/// `name`, which is relative, inside the directory `dir`.
pub fn join_path(dir: &[u8], name: &[u8]) -> (path: Vec<u8>)
    ensures
        path@ == joined(dir@, name@),
{
    let mut path = bytes::copy_range(dir, 0, dir.len());
    assert(path@ =~= dir@);
    if dir.len() > 0 && dir[dir.len() - 1] != SEPARATOR {
        path.push(SEPARATOR);
    }
    bytes::append(&mut path, name);
    assert(path@ =~= joined(dir@, name@));
    path
}

/// Bytes of a text.
pub open spec fn utf8(text: Seq<char>) -> Seq<u8> {
    vstd::utf8::encode_utf8(text)
}

/// The name of the proxy's program.
pub open spec fn proxy_name() -> Seq<u8> {
    utf8("tap-tunnel-proxy"@)
}

/// What is known of where the program may be.
pub struct Surroundings {
    /// The directory of the running program, and that directory's parent.
    pub exe_dir: Option<(Vec<u8>, Option<Vec<u8>>)>,
    /// What `TAP_TUNNEL_PROXY` says.
    pub proxy_var: Option<Vec<u8>>,
    /// What `CARGO_MANIFEST_DIR` says.
    pub manifest_dir: Option<Vec<u8>>,
}

/// A directory of a build, and the program in it.
pub open spec fn built(manifest_dir: Seq<u8>, profile: Seq<char>) -> Seq<u8> {
    joined(joined(joined(manifest_dir, utf8("target"@)), utf8(profile)), proxy_name())
}

impl Surroundings {
    /// Where to look before the system's path is asked, in order.
    pub open spec fn places(&self) -> Seq<Seq<u8>> {
        (match self.exe_dir {
            Some((dir, _)) => seq![joined(dir@, proxy_name())],
            None => Seq::empty(),
        }) + (match self.proxy_var {
            Some(path) => seq![path@],
            None => Seq::empty(),
        }) + (match self.manifest_dir {
            Some(dir) => seq![built(dir@, "debug"@), built(dir@, "release"@)],
            None => Seq::empty(),
        })
    }

    /// Where to look last.
    pub open spec fn last_place(&self) -> Option<Seq<u8>> {
        match self.exe_dir {
            Some((_, Some(parent))) => Some(joined(parent@, proxy_name())),
            _ => None,
        }
    }

    /// All places, in order, when the system's path says `answer`.
    pub open spec fn all_places(&self, answer: Option<Seq<char>>) -> Seq<Seq<u8>> {
        self.places() + late_places(answer, self.last_place())
    }
}

/// Where to look once the system's path has said `answer`: there, and then at
/// the last place.
pub open spec fn late_places(answer: Option<Seq<char>>, last: Option<Seq<u8>>) -> Seq<Seq<u8>> {
    (match answer {
        Some(answer) => seq![utf8(text::trimmed(answer))],
        None => Seq::empty(),
    }) + (match last {
        Some(place) => seq![place],
        None => Seq::empty(),
    })
}

/// What a place is as a view.
pub open spec fn place_view(place: Option<Vec<u8>>) -> Option<Seq<u8>> {
    match place {
        Some(path) => Some(path@),
        None => None,
    }
}

/// What an answer is as a view.
pub open spec fn answer_view(answer: Option<&str>) -> Option<Seq<char>> {
    match answer {
        Some(answer) => Some(answer@),
        None => None,
    }
}

/// What paths are as views.
pub open spec fn path_views(paths: Seq<Vec<u8>>) -> Seq<Seq<u8>> {
    paths.map_values(|path: Vec<u8>| path@)
}

fn push_path(paths: &mut Vec<Vec<u8>>, path: Vec<u8>)
    ensures
        final(paths)@ == old(paths)@.push(path),
        path_views(final(paths)@) == path_views(old(paths)@).push(path@),
{
    let ghost before = paths@;
    paths.push(path);
    assert(path_views(paths@) =~= path_views(before).push(path@));
}

fn built_path(manifest_dir: &[u8], profile: &str) -> (path: Vec<u8>)
    ensures
        path@ == built(manifest_dir@, profile@),
{
    let target = join_path(manifest_dir, "target".as_bytes());
    let target = join_path(&target, profile.as_bytes());
    join_path(&target, "tap-tunnel-proxy".as_bytes())
}

/// What the search does next.
#[derive(Debug)]
pub enum SearchStep {
    /// Find out whether this file exists.
    Check(Vec<u8>),
    /// Ask the system where on its path the program is.
    AskPath,
    Found(Vec<u8>),
    NotFound(Error),
}

/// The search for the proxy's program.
#[derive(Debug)]
pub struct Search {
    /// Where to look, in order.
    pub places: Vec<Vec<u8>>,
    /// Where to look after all others.
    pub last_place: Option<Vec<u8>>,
    /// How many of the places do not have it.
    pub passed: usize,
    /// The next place has it.
    pub found: bool,
    /// The system's path has been asked.
    pub asked: bool,
}

/// How the failure of the search reads.
pub open spec fn not_found_text() -> Seq<char> {
    "proxy binary 'tap-tunnel-proxy' not found. Ensure it's in the same directory as the executable, set TAP_TUNNEL_PROXY environment variable, or install it in PATH"@
}

impl Search {
    pub open spec fn wf(&self) -> bool {
        &&& self.passed <= self.places@.len()
        &&& self.found ==> self.passed < self.places@.len()
    }

    /// Nothing has been looked at yet.
    pub open spec fn begun(&self, surroundings: &Surroundings) -> bool {
        &&& path_views(self.places@) == surroundings.places()
        &&& place_view(self.last_place) == surroundings.last_place()
        &&& self.passed == 0
        &&& !self.found
        &&& !self.asked
    }

    /// Begin a search.
    pub fn new(surroundings: &Surroundings) -> (search: Search)
        ensures
            search.wf(),
            search.begun(surroundings),
    {
        let mut places: Vec<Vec<u8>> = Vec::new();
        let mut last_place: Option<Vec<u8>> = None;
        match &surroundings.exe_dir {
            Some((dir, parent)) => {
                push_path(&mut places, join_path(dir, "tap-tunnel-proxy".as_bytes()));
                match parent {
                    Some(parent) => {
                        last_place = Some(join_path(parent, "tap-tunnel-proxy".as_bytes()));
                    },
                    None => {},
                }
            },
            None => {},
        }
        match &surroundings.proxy_var {
            Some(path) => {
                let copy = bytes::copy_range(path, 0, path.len());
                assert(copy@ =~= path@);
                push_path(&mut places, copy);
            },
            None => {},
        }
        match &surroundings.manifest_dir {
            Some(dir) => {
                push_path(&mut places, built_path(dir, "debug"));
                push_path(&mut places, built_path(dir, "release"));
            },
            None => {},
        }
        assert(path_views(places@) =~= surroundings.places());
        Search { places, last_place, passed: 0, found: false, asked: false }
    }

    /// What to do next.
    pub fn next(&self) -> (step: SearchStep)
        requires
            self.wf(),
        ensures
            if self.passed < self.places@.len() {
                let place = self.places@[self.passed as int]@;
                if self.found {
                    step matches SearchStep::Found(path) && path@ == place
                } else {
                    step matches SearchStep::Check(path) && path@ == place
                }
            } else if !self.asked {
                step is AskPath
            } else {
                step matches SearchStep::NotFound(error) && error.reads(
                    ErrorKind::NotFound,
                    not_found_text(),
                )
            },
    {
        if self.passed < self.places.len() {
            let place = &self.places[self.passed];
            let path = bytes::copy_range(place, 0, place.len());
            assert(path@ =~= self.places@[self.passed as int]@);
            if self.found {
                SearchStep::Found(path)
            } else {
                SearchStep::Check(path)
            }
        } else if !self.asked {
            SearchStep::AskPath
        } else {
            SearchStep::NotFound(
                Error::new(
                    ErrorKind::NotFound,
                    "proxy binary 'tap-tunnel-proxy' not found. Ensure it's in the same directory as the executable, set TAP_TUNNEL_PROXY environment variable, or install it in PATH",
                ),
            )
        }
    }

    /// The next place was looked at.
    pub open spec fn was_checked(&self, before: &Search, present: bool) -> bool {
        &&& self.places == before.places
        &&& self.last_place == before.last_place
        &&& self.asked == before.asked
        &&& self.found == present
        &&& self.passed == if present {
            before.passed as int
        } else {
            before.passed + 1
        }
    }

    /// Take note of whether the file that was to be checked exists.
    pub fn checked(&mut self, present: bool)
        requires
            old(self).wf(),
            !old(self).found,
            old(self).passed < old(self).places@.len(),
        ensures
            final(self).wf(),
            final(self).was_checked(old(self), present),
    {
        let count: usize = self.places.len();
        assert(self.passed < count);
        if present {
            self.found = true;
        } else {
            self.passed = self.passed + 1;
        }
    }

    /// The system's path was asked.
    pub open spec fn path_said(&self, before: &Search, answer: Option<Seq<char>>) -> bool {
        &&& self.asked
        &&& !self.found
        &&& self.passed == before.passed
        &&& path_views(self.places@) == path_views(before.places@) + late_places(
            answer,
            place_view(before.last_place),
        )
    }

    /// Take note of what the system's path says: where the program is, or
    /// nothing. After that, the last place is left.
    pub fn path_says(&mut self, answer: Option<&str>)
        requires
            old(self).wf(),
            !old(self).found,
            old(self).passed == old(self).places@.len(),
        ensures
            final(self).wf(),
            final(self).path_said(old(self), answer_view(answer)),
    {
        let ghost before = path_views(self.places@);
        self.asked = true;
        match answer {
            Some(answer) => {
                let trimmed = text::trim(answer);
                let all = trimmed.as_str().as_bytes();
                let path = bytes::copy_range(all, 0, all.len());
                assert(path@ =~= all@);
                push_path(&mut self.places, path);
            },
            None => {},
        }
        match self.last_place.take() {
            Some(place) => {
                push_path(&mut self.places, place);
            },
            None => {},
        }
        assert(path_views(self.places@) =~= before + late_places(
            answer_view(answer),
            place_view(old(self).last_place),
        ));
    }
}

/// One step of a search.
pub ghost enum SearchMove {
    /// A place was looked at, and had the program or not.
    Checked(bool),
    /// The system's path was asked.
    Asked(Option<Seq<char>>),
}

/// The search has made a step that it had asked for. `present` tells where files
/// are, and `answer` what the system's path says.
pub open spec fn searched_on(
    before: Search,
    after: Search,
    step: SearchMove,
    present: spec_fn(Seq<u8>) -> bool,
    answer: Option<Seq<char>>,
) -> bool {
    &&& before.wf()
    &&& !before.found
    &&& match step {
        SearchMove::Checked(there) => {
            &&& before.passed < before.places@.len()
            &&& there == present(before.places@[before.passed as int]@)
            &&& after.was_checked(&before, there)
        },
        SearchMove::Asked(said) => {
            &&& before.passed == before.places@.len()
            &&& !before.asked
            &&& said == answer
            &&& after.path_said(&before, said)
        },
    }
}

/// What a search knows: the places that it has passed do not have the program,
/// and the one where it was found does.
pub open spec fn knows(
    search: Search,
    surroundings: Surroundings,
    present: spec_fn(Seq<u8>) -> bool,
    answer: Option<Seq<char>>,
) -> bool {
    let places = path_views(search.places@);
    &&& if search.asked {
        places == surroundings.all_places(answer)
    } else {
        places == surroundings.places() && place_view(search.last_place)
            == surroundings.last_place()
    }
    &&& search.passed <= places.len()
    &&& forall|i: int| 0 <= i < search.passed ==> !present(#[trigger] places[i])
    &&& search.found ==> search.passed < places.len() && present(places[search.passed as int])
}

proof fn lemma_knows(
    before: Search,
    after: Search,
    step: SearchMove,
    surroundings: Surroundings,
    present: spec_fn(Seq<u8>) -> bool,
    answer: Option<Seq<char>>,
)
    requires
        knows(before, surroundings, present, answer),
        searched_on(before, after, step, present, answer),
    ensures
        knows(after, surroundings, present, answer),
{
    let was = path_views(before.places@);
    let now = path_views(after.places@);
    match step {
        SearchMove::Checked(_) => {
            assert(was[before.passed as int] == before.places@[before.passed as int]@);
        },
        SearchMove::Asked(_) => {
            assert forall|i: int| 0 <= i < after.passed implies !present(#[trigger] now[i]) by {
                assert(now[i] == was[i]);
            }
        },
    }
}

/// The program is found at the first of all places that has it, and is not found
/// just when none of them has it.
pub proof fn first_place_wins(
    surroundings: Surroundings,
    present: spec_fn(Seq<u8>) -> bool,
    answer: Option<Seq<char>>,
    states: Seq<Search>,
    steps: Seq<SearchMove>,
)
    requires
        states.len() == steps.len() + 1,
        states[0].begun(&surroundings),
        forall|i: int|
            0 <= i < steps.len() ==> searched_on(
                #[trigger] states[i],
                states[i + 1],
                steps[i],
                present,
                answer,
            ),
    ensures
        ({
            let all = surroundings.all_places(answer);
            let last = states.last();
            &&& forall|i: int| 0 <= i < last.passed ==> !present(#[trigger] all[i])
            &&& last.found ==> {
                &&& last.passed < all.len()
                &&& present(all[last.passed as int])
                &&& last.places@[last.passed as int]@ == all[last.passed as int]
            }
            &&& !last.found && last.asked && last.passed == last.places@.len() ==> last.passed
                == all.len()
        }),
{
    lemma_knows_all(surroundings, present, answer, states, steps);
    let all = surroundings.all_places(answer);
    let last = states.last();
    let places = path_views(last.places@);
    assert forall|i: int| 0 <= i < places.len() implies #[trigger] all[i] == places[i] by {}
    assert forall|i: int| 0 <= i < last.passed implies !present(#[trigger] all[i]) by {
        assert(!present(places[i]));
    }
}

proof fn lemma_knows_all(
    surroundings: Surroundings,
    present: spec_fn(Seq<u8>) -> bool,
    answer: Option<Seq<char>>,
    states: Seq<Search>,
    steps: Seq<SearchMove>,
)
    requires
        states.len() == steps.len() + 1,
        states[0].begun(&surroundings),
        forall|i: int|
            0 <= i < steps.len() ==> searched_on(
                #[trigger] states[i],
                states[i + 1],
                steps[i],
                present,
                answer,
            ),
    ensures
        knows(states.last(), surroundings, present, answer),
    decreases steps.len(),
{
    if steps.len() > 0 {
        let fewer = states.drop_last();
        let init = steps.drop_last();
        assert forall|i: int| 0 <= i < init.len() implies searched_on(
            #[trigger] fewer[i],
            fewer[i + 1],
            init[i],
            present,
            answer,
        ) by {
            assert(searched_on(states[i], states[i + 1], steps[i], present, answer));
        }
        lemma_knows_all(surroundings, present, answer, fewer, init);
        let n = steps.len() - 1;
        assert(searched_on(states[n], states[n + 1], steps[n], present, answer));
        lemma_knows(states[n], states[n + 1], steps[n], surroundings, present, answer);
    }
}

/// A joined path begins with the directory and ends with the name, and between them
/// stands one slash, which the directory may have brought with it.
pub proof fn one_slash_joins(dir: &[u8], name: &[u8], path: Vec<u8>)
    requires
        call_ensures(join_path, (dir, name), path),
    ensures
        path@.take(dir@.len() as int) == dir@,
        path@.skip(path@.len() - name@.len()) == name@,
        dir@.len() == 0 ==> path@ == name@,
        dir@.len() > 0 ==> path@[path@.len() - name@.len() - 1] == 47,
        dir@.len() > 0 && dir@.last() == 47 ==> path@.len() == dir@.len() + name@.len(),
        dir@.len() > 0 && dir@.last() != 47 ==> path@.len() == dir@.len() + 1 + name@.len(),
{
    assert(path@.take(dir@.len() as int) =~= dir@);
    assert(path@.skip(path@.len() - name@.len()) =~= name@);
    if dir@.len() == 0 {
        assert(path@ =~= name@);
    }
}

/// The search begins beside the running program, goes on where the environment says
/// and then with the two kinds of builds, the debug build first. The directory above
/// the running program is kept for last.
pub proof fn searches_begin_beside_the_program(
    surroundings: &Surroundings,
    search: Search,
    dir: &[u8],
    parent: &[u8],
    name: &[u8],
    beside: Vec<u8>,
    above: Vec<u8>,
)
    requires
        call_ensures(Search::new, (surroundings,), search),
        name@ == vstd::utf8::encode_utf8("tap-tunnel-proxy"@),
        surroundings.exe_dir matches Some((own, _)) ==> dir@ == own@,
        surroundings.exe_dir matches Some((_, Some(upper))) ==> parent@ == upper@,
        call_ensures(join_path, (dir, name), beside),
        call_ensures(join_path, (parent, name), above),
    ensures
        ({
            let first = if surroundings.exe_dir is Some {
                1int
            } else {
                0int
            };
            let second = first + if surroundings.proxy_var is Some {
                1int
            } else {
                0int
            };
            &&& search.passed == 0 && !search.found && !search.asked
            &&& search.places@.len() == second + if surroundings.manifest_dir is Some {
                2int
            } else {
                0int
            }
            &&& surroundings.exe_dir is Some ==> search.places@[0]@ == beside@
            &&& surroundings.proxy_var matches Some(path) ==> search.places@[first]@ == path@
            &&& surroundings.exe_dir is None ==> search.last_place is None
            &&& surroundings.exe_dir matches Some((_, upper)) ==> search.last_place is Some
                == upper is Some
            &&& search.last_place matches Some(place) ==> place@ == above@
        }),
{
    let views = path_views(search.places@);
    assert(views.len() == search.places@.len());
    assert forall|i: int| 0 <= i < views.len() implies #[trigger] views[i] == search.places@[i]@ by {}
    if surroundings.exe_dir is Some {
        assert(views[0] == beside@);
    }
    if surroundings.proxy_var is Some {
        let first = if surroundings.exe_dir is Some {
            1int
        } else {
            0int
        };
        assert(views[first] == surroundings.proxy_var->0@);
    }
}

/// The builds are looked for in the manifest's directory, under target and the kind
/// of the build.
pub proof fn builds_are_under_target(
    surroundings: &Surroundings,
    search: Search,
    manifest: &[u8],
    target_name: &[u8],
    debug_name: &[u8],
    release_name: &[u8],
    name: &[u8],
    target: Vec<u8>,
    target_dir: &[u8],
    debug: Vec<u8>,
    debug_dir: &[u8],
    release: Vec<u8>,
    release_dir: &[u8],
    debug_path: Vec<u8>,
    release_path: Vec<u8>,
)
    requires
        call_ensures(Search::new, (surroundings,), search),
        surroundings.manifest_dir matches Some(dir) && manifest@ == dir@,
        target_name@ == vstd::utf8::encode_utf8("target"@),
        debug_name@ == vstd::utf8::encode_utf8("debug"@),
        release_name@ == vstd::utf8::encode_utf8("release"@),
        name@ == vstd::utf8::encode_utf8("tap-tunnel-proxy"@),
        call_ensures(join_path, (manifest, target_name), target),
        target_dir@ == target@,
        call_ensures(join_path, (target_dir, debug_name), debug),
        debug_dir@ == debug@,
        call_ensures(join_path, (target_dir, release_name), release),
        release_dir@ == release@,
        call_ensures(join_path, (debug_dir, name), debug_path),
        call_ensures(join_path, (release_dir, name), release_path),
    ensures
        search.places@.len() >= 2,
        search.places@[search.places@.len() - 2]@ == debug_path@,
        search.places@[search.places@.len() - 1]@ == release_path@,
{
    let views = path_views(search.places@);
    assert(views.len() == search.places@.len());
    assert forall|i: int| 0 <= i < views.len() implies #[trigger] views[i] == search.places@[i]@ by {}
    assert(views[views.len() - 2] == debug_path@);
    assert(views[views.len() - 1] == release_path@);
}

/// The next place is checked, or has the program where it was found there. After
/// the last of them the system's path is asked, once; after that the program is not
/// found.
pub proof fn searches_go_place_by_place(search: &Search, step: SearchStep)
    requires
        call_ensures(Search::next, (search,), step),
        search.passed <= search.places@.len(),
    ensures
        step is Found <==> search.passed < search.places@.len() && search.found,
        step is Check <==> search.passed < search.places@.len() && !search.found,
        step is AskPath <==> search.passed == search.places@.len() && !search.asked,
        step matches SearchStep::Found(path) ==> path@ == search.places@[search.passed as int]@,
        step matches SearchStep::Check(path) ==> path@ == search.places@[search.passed as int]@,
        step matches SearchStep::NotFound(error) ==> error.kind == ErrorKind::NotFound
            && error.message@
            == "proxy binary 'tap-tunnel-proxy' not found. Ensure it's in the same directory as the executable, set TAP_TUNNEL_PROXY environment variable, or install it in PATH"@,
{
}

/// A place that has the program ends the search there; one that has not is passed.
pub proof fn searches_pass_what_is_missing(search: &mut Search, present: bool)
    requires
        call_ensures(Search::checked, (search, present), ()),
    ensures
        final(search).found == present,
        present ==> final(search).passed == old(search).passed,
        !present ==> final(search).passed == old(search).passed + 1,
        final(search).places == old(search).places,
        final(search).last_place == old(search).last_place,
        final(search).asked == old(search).asked,
{
}

/// What the system's path says is looked at next, without the white space round it,
/// and then the last place. Nothing that was there is lost.
pub proof fn the_systems_path_comes_late(
    search: &mut Search,
    answer: Option<&str>,
    trimmed: String,
)
    requires
        call_ensures(Search::path_says, (search, answer), ()),
        answer matches Some(said) ==> call_ensures(text::trim, (said,), trimmed),
    ensures
        ({
            let were = old(search).places@;
            let are = final(search).places@;
            let behind = were.len() + if answer is Some {
                1int
            } else {
                0int
            };
            &&& final(search).asked && !final(search).found
            &&& final(search).passed == old(search).passed
            &&& are.len() == behind + if old(search).last_place is Some {
                1int
            } else {
                0int
            }
            &&& forall|i: int| 0 <= i < were.len() ==> (#[trigger] are[i])@ == were[i]@
            &&& answer is Some ==> are[were.len() as int]@ == vstd::utf8::encode_utf8(trimmed@)
            &&& old(search).last_place matches Some(place) ==> are[behind]@ == place@
        }),
{
    let were = path_views(old(search).places@);
    let are = path_views(final(search).places@);
    assert(were.len() == old(search).places@.len());
    assert(are.len() == final(search).places@.len());
    assert forall|i: int| 0 <= i < are.len() implies #[trigger] are[i] == final(
        search).places@[i]@ by {}
    assert forall|i: int| 0 <= i < were.len() implies (#[trigger] final(search).places@[i])@ == old(
        search).places@[i]@ by {
        assert(were[i] == old(search).places@[i]@);
        assert(are[i] == were[i]);
    }
    let at = were.len() as int;
    let late = late_places(answer_view(answer), place_view(old(search).last_place));
    assert(are == were + late);
    if answer is Some {
        assert(are[at] == late[0]);
        assert(final(search).places@[at]@ == are[at]);
        if old(search).last_place is Some {
            assert(are[at + 1] == late[1]);
            assert(final(search).places@[at + 1]@ == are[at + 1]);
        }
    } else if old(search).last_place is Some {
        assert(are[at] == late[0]);
        assert(final(search).places@[at]@ == are[at]);
    }
}

} // verus!
