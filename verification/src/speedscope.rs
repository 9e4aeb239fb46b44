//! The speedscope profile format, as a profiler writes it, and the profiles
//! that the viewer builds from it.
//!
//! Floating-point values of the format (start and end values, weights) are
//! carried as their IEEE-754 bit patterns: nothing here computes with them,
//! they only travel from the file into the profiles.

use vstd::prelude::*;

verus! {

/// Whether a profile was sampled or recorded as events.
#[allow(non_camel_case_types)]
#[derive(Debug, Clone, Copy, PartialEq, Eq, Structural)]
pub enum ProfileType {
    sampled,
    evented,
}

/// The unit of a profile's values.
#[derive(Debug, Clone, Copy, PartialEq, Eq, Structural)]
pub enum ValueUnit {
    Bytes,
    Microseconds,
    Milliseconds,
    Nanoseconds,
    NoUnit,
    Seconds,
}

/// One frame of a call stack: a function name and, where known, its place
/// in the source.
#[derive(Debug)]
pub struct Frame {
    pub name: String,
    pub file: Option<String>,
    pub line: Option<usize>,
    pub col: Option<usize>,
}

impl Clone for Frame {
    fn clone(&self) -> (res: Self)
        ensures
            res == *self,
    {
        let file = match &self.file {
            Some(f) => Some(f.clone()),
            None => None,
        };
        Frame { name: self.name.clone(), file, line: self.line, col: self.col }
    }
}

/// A profile as the file holds it: each sample is a list of indices into
/// the file's shared frame table, outermost frame first.
#[derive(Debug)]
pub struct ProfileView {
    pub profile_type: ProfileType,
    pub name: String,
    pub unit: ValueUnit,
    /// Bit pattern of the `f64` start value.
    pub start_value: u64,
    /// Bit pattern of the `f64` end value.
    pub end_value: u64,
    pub samples: Vec<Vec<usize>>,
    /// Bit patterns of the `f64` weights, one per sample.
    pub weights: Vec<u64>,
}

/// The frame table that all profiles of a file share.
#[derive(Debug)]
pub struct Shared {
    pub frames: Vec<Frame>,
}

/// A whole speedscope file.
#[derive(Debug)]
pub struct File {
    pub schema: String,
    pub profiles: Vec<ProfileView>,
    pub shared: Shared,
}

/// A call stack, outermost frame first.
#[derive(Debug, Clone)]
pub struct Stack {
    pub frames: Vec<Frame>,
}

impl View for Stack {
    type V = Seq<Frame>;

    open spec fn view(&self) -> Seq<Frame> {
        self.frames@
    }
}

impl Stack {
    /// The number of frames on the stack.
    pub fn len(&self) -> (n: usize)
        ensures
            n == self@.len(),
    {
        self.frames.len()
    }
}

/// What a profile is, as a value: its stacks as sequences of frames.
pub struct ProfileModel {
    pub profile_type: ProfileType,
    pub name: Seq<char>,
    pub unit: ValueUnit,
    pub start_value: u64,
    pub end_value: u64,
    pub stacks: Seq<Seq<Frame>>,
    pub weights: Seq<u64>,
}

/// A profile whose samples have been resolved into stacks of frames.
#[derive(Debug, Clone)]
pub struct Profile {
    pub profile_type: ProfileType,
    pub name: String,
    pub unit: ValueUnit,
    /// Bit pattern of the `f64` start value.
    pub start_value: u64,
    /// Bit pattern of the `f64` end value.
    pub end_value: u64,
    pub stacks: Vec<Stack>,
    /// Bit patterns of the `f64` weights.
    pub weights: Vec<u64>,
}

/// The frames of each stack, in order.
pub open spec fn stacks_view(stacks: Seq<Stack>) -> Seq<Seq<Frame>> {
    stacks.map_values(|s: Stack| s@)
}

/// The text of each string, in order.
pub open spec fn strings_view(strings: Seq<String>) -> Seq<Seq<char>> {
    strings.map_values(|s: String| s@)
}

impl View for Profile {
    type V = ProfileModel;

    open spec fn view(&self) -> ProfileModel {
        ProfileModel {
            profile_type: self.profile_type,
            name: self.name@,
            unit: self.unit,
            start_value: self.start_value,
            end_value: self.end_value,
            stacks: stacks_view(self.stacks@),
            weights: self.weights@,
        }
    }
}

/// A frame survives a filter when it names a source file and that file is
/// not one of the filtered files.
pub open spec fn keeps_frame(filter: Seq<Seq<char>>, frame: Frame) -> bool {
    match frame.file {
        Some(file) => !filter.contains(file@),
        None => false,
    }
}

pub open spec fn frame_kept_by(filter: Seq<Seq<char>>) -> spec_fn(Frame) -> bool {
    |frame: Frame| keeps_frame(filter, frame)
}

pub open spec fn stack_not_empty() -> spec_fn(Seq<Frame>) -> bool {
    |frames: Seq<Frame>| frames.len() > 0
}

pub open spec fn frames_filtered_by(filter: Seq<Seq<char>>) -> spec_fn(Seq<Frame>) -> Seq<Frame> {
    |frames: Seq<Frame>| frames.filter(frame_kept_by(filter))
}

/// The frames of a stack that survive a filter, in their order.
pub open spec fn filter_frames(filter: Seq<Seq<char>>, frames: Seq<Frame>) -> Seq<Frame> {
    frames.filter(frame_kept_by(filter))
}

/// Each stack cut down to its surviving frames; stacks left empty are dropped.
pub open spec fn filter_stacks(filter: Seq<Seq<char>>, stacks: Seq<Seq<Frame>>) -> Seq<Seq<Frame>> {
    stacks.map_values(frames_filtered_by(filter)).filter(stack_not_empty())
}

/// A profile with its stacks filtered; everything else unchanged.
pub open spec fn filter_profile(filter: Seq<Seq<char>>, p: ProfileModel) -> ProfileModel {
    ProfileModel { stacks: filter_stacks(filter, p.stacks), ..p }
}

/// Whether `name` is one of `names`.
pub fn contains_name(names: &Vec<String>, name: &String) -> (found: bool)
    ensures
        found == strings_view(names@).contains(name@),
{
    let ghost view = strings_view(names@);
    let mut i: usize = 0;
    while i < names.len()
        invariant
            i <= names.len(),
            view == strings_view(names@),
            forall|j: int| 0 <= j < i ==> view[j] != name@,
        decreases names.len() - i,
    {
        if names[i] == *name {
            assert(view[i as int] == name@);
            return true;
        }
        i = i + 1;
    }
    assert forall|x: Seq<char>| view.contains(x) implies x != name@ by {
        let j = choose|j: int| 0 <= j < view.len() && view[j] == x;
        assert(view[j] != name@);
    }
    false
}

/// The frames of `frames` that survive the filter, in their order.
fn filter_frame_list(frames: &Vec<Frame>, filter: &Vec<String>) -> (kept: Vec<Frame>)
    ensures
        kept@ == filter_frames(strings_view(filter@), frames@),
{
    let ghost names = strings_view(filter@);
    let mut kept: Vec<Frame> = Vec::new();
    let mut i: usize = 0;
    while i < frames.len()
        invariant
            i <= frames.len(),
            names == strings_view(filter@),
            kept@ == frames@.take(i as int).filter(frame_kept_by(names)),
        decreases frames.len() - i,
    {
        proof {
            assert(frames@.take(i + 1).drop_last() =~= frames@.take(i as int));
            reveal(Seq::filter);
        }
        let frame = &frames[i];
        let keep = match &frame.file {
            Some(file) => !contains_name(filter, file),
            None => false,
        };
        if keep {
            kept.push(frame.clone());
        }
        i = i + 1;
    }
    assert(frames@.take(frames.len() as int) =~= frames@);
    kept
}

impl Profile {
    /// The number of stacks in the profile.
    pub fn len(&self) -> (n: usize)
        ensures
            n == self@.stacks.len(),
    {
        self.stacks.len()
    }

    /// A copy of the profile in which every stack keeps only the frames that
    /// name a source file outside `filter`, and stacks left with no frame are
    /// dropped.
    pub fn with_filter(&self, filter: &Vec<String>) -> (res: Profile)
        ensures
            res@ == filter_profile(strings_view(filter@), self@),
    {
        let ghost names = strings_view(filter@);
        let ghost all = stacks_view(self.stacks@);
        let mut stacks: Vec<Stack> = Vec::new();
        let mut i: usize = 0;
        while i < self.stacks.len()
            invariant
                i <= self.stacks.len(),
                names == strings_view(filter@),
                all == stacks_view(self.stacks@),
                stacks_view(stacks@) == all.take(i as int).map_values(frames_filtered_by(names)).filter(
                    stack_not_empty(),
                ),
            decreases self.stacks.len() - i,
        {
            let frames = filter_frame_list(&self.stacks[i].frames, filter);
            proof {
                let f = frames_filtered_by(names);
                assert(all.take(i + 1).map_values(f).drop_last() =~= all.take(i as int).map_values(f));
                assert(all.take(i + 1).map_values(f).last() == frames@);
                reveal(Seq::filter);
            }
            if frames.len() > 0 {
                let ghost before = stacks@;
                stacks.push(Stack { frames });
                assert(stacks_view(stacks@) =~= stacks_view(before).push(frames@));
            }
            i = i + 1;
        }
        assert(all.take(self.stacks.len() as int) =~= all);
        let weights = self.weights.clone();
        assert(weights@ =~= self.weights@);
        Profile {
            profile_type: self.profile_type,
            name: self.name.clone(),
            unit: self.unit,
            start_value: self.start_value,
            end_value: self.end_value,
            stacks,
            weights,
        }
    }
}


/// The profiles of a file, each found under its name.
///
/// No two profiles share a name: a profile added under a name that is
/// already present replaces the one stored there, as a map does.
#[derive(Debug)]
pub struct Data {
    profiles: Vec<Profile>,
}

/// The map from name to profile that a list of profiles with distinct names
/// stands for; a later profile of the same name wins.
pub closed spec fn profiles_map(ps: Seq<Profile>) -> Map<Seq<char>, ProfileModel>
    decreases ps.len(),
{
    if ps.len() == 0 {
        Map::empty()
    } else {
        profiles_map(ps.drop_last()).insert(ps.last().name@, ps.last()@)
    }
}

pub closed spec fn names_distinct(ps: Seq<Profile>) -> bool {
    forall|i: int, j: int|
        0 <= i < ps.len() && 0 <= j < ps.len() && i != j ==> #[trigger] ps[i].name@ != #[trigger] ps[j].name@
}

proof fn lemma_profiles_map_dom(ps: Seq<Profile>, k: Seq<char>)
    ensures
        profiles_map(ps).contains_key(k) <==> exists|i: int| 0 <= i < ps.len() && #[trigger] ps[i].name@ == k,
    decreases ps.len(),
{
    if ps.len() > 0 {
        lemma_profiles_map_dom(ps.drop_last(), k);
        if profiles_map(ps.drop_last()).contains_key(k) {
            let i = choose|i: int| 0 <= i < ps.drop_last().len() && #[trigger] ps.drop_last()[i].name@ == k;
            assert(ps[i].name@ == k);
        }
        if exists|i: int| 0 <= i < ps.len() && #[trigger] ps[i].name@ == k {
            let i = choose|i: int| 0 <= i < ps.len() && #[trigger] ps[i].name@ == k;
            if i < ps.len() - 1 {
                assert(ps.drop_last()[i].name@ == k);
            }
        }
    }
}

proof fn lemma_profiles_map_at(ps: Seq<Profile>, i: int)
    requires
        names_distinct(ps),
        0 <= i < ps.len(),
    ensures
        profiles_map(ps).contains_key(ps[i].name@),
        profiles_map(ps)[ps[i].name@] == ps[i]@,
    decreases ps.len(),
{
    if i < ps.len() - 1 {
        let rest = ps.drop_last();
        assert(names_distinct(rest)) by {
            assert forall|a: int, b: int|
                0 <= a < rest.len() && 0 <= b < rest.len() && a != b implies #[trigger] rest[a].name@
                != #[trigger] rest[b].name@ by {
                assert(ps[a].name@ != ps[b].name@);
            }
        }
        lemma_profiles_map_at(rest, i);
        assert(ps[i].name@ != ps[ps.len() - 1].name@);
    }
}

proof fn lemma_profiles_map_len(ps: Seq<Profile>)
    requires
        names_distinct(ps),
    ensures
        profiles_map(ps).dom().finite(),
        profiles_map(ps).dom().len() == ps.len(),
    decreases ps.len(),
{
    if ps.len() > 0 {
        let rest = ps.drop_last();
        assert(names_distinct(rest)) by {
            assert forall|a: int, b: int|
                0 <= a < rest.len() && 0 <= b < rest.len() && a != b implies #[trigger] rest[a].name@
                != #[trigger] rest[b].name@ by {
                assert(ps[a].name@ != ps[b].name@);
            }
        }
        lemma_profiles_map_len(rest);
        lemma_profiles_map_dom(rest, ps.last().name@);
        if profiles_map(rest).contains_key(ps.last().name@) {
            let i = choose|i: int| 0 <= i < rest.len() && #[trigger] rest[i].name@ == ps.last().name@;
            assert(ps[i].name@ != ps[ps.len() - 1].name@);
        }
    }
}

proof fn lemma_profiles_map_update(ps: Seq<Profile>, j: int, p: Profile)
    requires
        names_distinct(ps),
        0 <= j < ps.len(),
        ps[j].name@ == p.name@,
    ensures
        profiles_map(ps.update(j, p)) == profiles_map(ps).insert(p.name@, p@),
    decreases ps.len(),
{
    let qs = ps.update(j, p);
    if j == ps.len() - 1 {
        assert(qs.drop_last() =~= ps.drop_last());
        assert(profiles_map(qs) =~= profiles_map(ps).insert(p.name@, p@));
    } else {
        let rest = ps.drop_last();
        assert(names_distinct(rest)) by {
            assert forall|a: int, b: int|
                0 <= a < rest.len() && 0 <= b < rest.len() && a != b implies #[trigger] rest[a].name@
                != #[trigger] rest[b].name@ by {
                assert(ps[a].name@ != ps[b].name@);
            }
        }
        lemma_profiles_map_update(rest, j, p);
        assert(qs.drop_last() =~= rest.update(j, p));
        assert(ps[j].name@ != ps[ps.len() - 1].name@);
        assert(profiles_map(qs) =~= profiles_map(ps).insert(p.name@, p@));
    }
}

impl View for Data {
    type V = Map<Seq<char>, ProfileModel>;

    closed spec fn view(&self) -> Map<Seq<char>, ProfileModel> {
        profiles_map(self.profiles@)
    }
}

impl Data {
    #[verifier::type_invariant]
    closed spec fn wf(self) -> bool {
        names_distinct(self.profiles@)
    }

    /// Data with no profile.
    pub fn new() -> (data: Data)
        ensures
            data@ == Map::<Seq<char>, ProfileModel>::empty(),
    {
        Data { profiles: Vec::new() }
    }

    /// The number of profiles.
    pub fn len(&self) -> (n: usize)
        ensures
            n == self@.len(),
            self@.dom().finite(),
    {
        proof {
            use_type_invariant(self);
            lemma_profiles_map_len(self.profiles@);
        }
        self.profiles.len()
    }

    /// Stores `profile` under its name, replacing a profile of the same name.
    pub fn insert(&mut self, profile: Profile)
        ensures
            final(self)@ == old(self)@.insert(profile.name@, profile@),
    {
        proof {
            use_type_invariant(&*self);
        }
        let mut profiles: Vec<Profile> = Vec::new();
        std::mem::swap(&mut profiles, &mut self.profiles);
        let ghost before = profiles@;
        let mut i: usize = 0;
        let mut found = false;
        while i < profiles.len()
            invariant_except_break
                !found,
            invariant
                profiles@ == before,
                names_distinct(before),
                i <= profiles.len(),
                forall|j: int| 0 <= j < i ==> profiles@[j].name@ != profile.name@,
            ensures
                profiles@ == before,
                i <= profiles.len(),
                found ==> i < profiles.len() && profiles@[i as int].name@ == profile.name@,
                !found ==> forall|j: int| 0 <= j < profiles.len() ==> profiles@[j].name@ != profile.name@,
            decreases profiles.len() - i,
        {
            if profiles[i].name == profile.name {
                found = true;
                break;
            }
            i = i + 1;
        }
        if found {
            proof {
                lemma_profiles_map_update(before, i as int, profile);
            }
            profiles.set(i, profile);
            assert(profiles@ == before.update(i as int, profile));
            assert(names_distinct(profiles@)) by {
                assert forall|a: int, b: int|
                    0 <= a < profiles@.len() && 0 <= b < profiles@.len() && a != b implies #[trigger] profiles@[a].name@
                    != #[trigger] profiles@[b].name@ by {
                    if a != i && b != i {
                        assert(before[a].name@ != before[b].name@);
                    } else if a == i {
                        assert(before[i as int].name@ != before[b].name@);
                    } else {
                        assert(before[a].name@ != before[i as int].name@);
                    }
                }
            }
        } else {
            let ghost p = profile;
            profiles.push(profile);
            assert(profiles@.drop_last() =~= before);
            assert(names_distinct(profiles@)) by {
                assert forall|a: int, b: int|
                    0 <= a < profiles@.len() && 0 <= b < profiles@.len() && a != b implies #[trigger] profiles@[a].name@
                    != #[trigger] profiles@[b].name@ by {
                    if a < before.len() && b < before.len() {
                        assert(before[a].name@ != before[b].name@);
                    }
                }
            }
        }
        self.profiles = profiles;
    }

    /// The profile stored under `name`, if any.
    pub fn get(&self, name: &String) -> (res: Option<&Profile>)
        ensures
            match res {
                Some(p) => self@.contains_key(name@) && p.name@ == name@ && p@ == self@[name@],
                None => !self@.contains_key(name@),
            },
    {
        proof {
            use_type_invariant(self);
        }
        let mut i: usize = 0;
        while i < self.profiles.len()
            invariant
                names_distinct(self.profiles@),
                i <= self.profiles.len(),
                forall|j: int| 0 <= j < i ==> self.profiles@[j].name@ != name@,
            decreases self.profiles.len() - i,
        {
            if self.profiles[i].name == *name {
                proof {
                    lemma_profiles_map_at(self.profiles@, i as int);
                }
                return Some(&self.profiles[i]);
            }
            i = i + 1;
        }
        proof {
            lemma_profiles_map_dom(self.profiles@, name@);
        }
        None
    }

    /// One of the profiles, or `None` when there is none. Which profile comes
    /// back is not promised, as with the first value of a hash map's walk.
    pub fn any_profile(&self) -> (res: Option<&Profile>)
        ensures
            match res {
                Some(p) => self@.contains_key(p.name@) && p@ == self@[p.name@],
                None => self@ == Map::<Seq<char>, ProfileModel>::empty(),
            },
    {
        proof {
            use_type_invariant(self);
        }
        if self.profiles.len() == 0 {
            assert(self@ =~= Map::<Seq<char>, ProfileModel>::empty());
            None
        } else {
            proof {
                lemma_profiles_map_at(self.profiles@, 0);
            }
            Some(&self.profiles[0])
        }
    }
}


/// The frame that a frame-table index names.
pub open spec fn frame_at(frames: Seq<Frame>) -> spec_fn(usize) -> Frame {
    |i: usize| frames[i as int]
}

/// The stack that a sample stands for: its indices resolved in the frame table.
pub open spec fn sample_stack(frames: Seq<Frame>) -> spec_fn(Seq<usize>) -> Seq<Frame> {
    |sample: Seq<usize>| sample.map_values(frame_at(frames))
}

pub open spec fn sample_not_empty() -> spec_fn(Seq<usize>) -> bool {
    |sample: Seq<usize>| sample.len() > 0
}

/// The indices of each sample, in order.
pub open spec fn samples_view(samples: Seq<Vec<usize>>) -> Seq<Seq<usize>> {
    samples.map_values(|sample: Vec<usize>| sample@)
}

/// The stacks of a profile: one per sample that is not empty, in order.
pub open spec fn resolve_stacks(frames: Seq<Frame>, samples: Seq<Seq<usize>>) -> Seq<Seq<Frame>> {
    samples.filter(sample_not_empty()).map_values(sample_stack(frames))
}

/// The profile that a profile of the file stands for.
pub open spec fn resolve_profile(frames: Seq<Frame>, pv: ProfileView) -> ProfileModel {
    ProfileModel {
        profile_type: pv.profile_type,
        name: pv.name@,
        unit: pv.unit,
        start_value: pv.start_value,
        end_value: pv.end_value,
        stacks: resolve_stacks(frames, samples_view(pv.samples@)),
        weights: pv.weights@,
    }
}

/// The profiles of a file by name; of two profiles with one name the later wins.
pub open spec fn resolve_profiles(frames: Seq<Frame>, pvs: Seq<ProfileView>) -> Map<Seq<char>, ProfileModel>
    decreases pvs.len(),
{
    if pvs.len() == 0 {
        Map::empty()
    } else {
        resolve_profiles(frames, pvs.drop_last()).insert(pvs.last().name@, resolve_profile(frames, pvs.last()))
    }
}

/// Every index of every sample names a frame of the table.
pub open spec fn sample_in_range(frame_count: nat, sample: Seq<usize>) -> bool {
    forall|k: int| 0 <= k < sample.len() ==> #[trigger] sample[k] < frame_count
}

pub open spec fn profile_in_range(frame_count: nat, pv: ProfileView) -> bool {
    forall|s: int| 0 <= s < pv.samples@.len() ==> sample_in_range(frame_count, #[trigger] pv.samples@[s]@)
}

pub open spec fn samples_in_range(file: File) -> bool {
    forall|p: int|
        0 <= p < file.profiles@.len() ==> profile_in_range(file.shared.frames@.len(), #[trigger] file.profiles@[p])
}

/// The frames that the indices of `sample` name.
fn resolve_sample(frames: &Vec<Frame>, sample: &Vec<usize>) -> (stack: Vec<Frame>)
    requires
        sample_in_range(frames@.len(), sample@),
    ensures
        stack@ == sample@.map_values(frame_at(frames@)),
{
    let mut stack: Vec<Frame> = Vec::new();
    let mut i: usize = 0;
    while i < sample.len()
        invariant
            i <= sample.len(),
            sample_in_range(frames@.len(), sample@),
            stack@ == sample@.take(i as int).map_values(frame_at(frames@)),
        decreases sample.len() - i,
    {
        let index = sample[i];
        assert(index < frames@.len());
        let frame = frames[index].clone();
        stack.push(frame);
        assert(sample@.take(i + 1).map_values(frame_at(frames@)) =~= sample@.take(i as int).map_values(
            frame_at(frames@),
        ).push(frame));
        i = i + 1;
    }
    assert(sample@.take(sample.len() as int) =~= sample@);
    stack
}

/// The profile that `pv` stands for, with its samples resolved into stacks.
fn resolve_profile_view(frames: &Vec<Frame>, pv: &ProfileView) -> (profile: Profile)
    requires
        profile_in_range(frames@.len(), *pv),
    ensures
        profile@ == resolve_profile(frames@, *pv),
{
    let ghost samples = samples_view(pv.samples@);
    let mut stacks: Vec<Stack> = Vec::new();
    let mut i: usize = 0;
    while i < pv.samples.len()
        invariant
            i <= pv.samples.len(),
            samples == samples_view(pv.samples@),
            profile_in_range(frames@.len(), *pv),
            stacks_view(stacks@) == samples.take(i as int).filter(sample_not_empty()).map_values(
                sample_stack(frames@),
            ),
        decreases pv.samples.len() - i,
    {
        proof {
            assert(samples.take(i + 1).drop_last() =~= samples.take(i as int));
            assert(samples.take(i + 1).last() == pv.samples@[i as int]@);
            reveal(Seq::filter);
        }
        let sample = &pv.samples[i];
        if sample.len() > 0 {
            let frames_of_sample = resolve_sample(frames, sample);
            let ghost before = stacks@;
            stacks.push(Stack { frames: frames_of_sample });
            assert(stacks_view(stacks@) =~= stacks_view(before).push(frames_of_sample@));
            assert(samples.take(i + 1).filter(sample_not_empty()) == samples.take(i as int).filter(
                sample_not_empty(),
            ).push(sample@));
            assert(samples.take(i + 1).filter(sample_not_empty()).map_values(sample_stack(frames@))
                =~= samples.take(i as int).filter(sample_not_empty()).map_values(sample_stack(frames@)).push(
                frames_of_sample@,
            ));
        }
        i = i + 1;
    }
    assert(samples.take(pv.samples.len() as int) =~= samples);
    let weights = pv.weights.clone();
    assert(weights@ =~= pv.weights@);
    Profile {
        profile_type: pv.profile_type,
        name: pv.name.clone(),
        unit: pv.unit,
        start_value: pv.start_value,
        end_value: pv.end_value,
        stacks,
        weights,
    }
}

/// Whether every index of every sample names a frame of the file's table.
pub fn samples_in_range_of(file: &File) -> (ok: bool)
    ensures
        ok == samples_in_range(*file),
{
    let count = file.shared.frames.len();
    let mut p: usize = 0;
    while p < file.profiles.len()
        invariant
            p <= file.profiles.len(),
            count == file.shared.frames@.len(),
            forall|q: int| 0 <= q < p ==> profile_in_range(count as nat, #[trigger] file.profiles@[q]),
        decreases file.profiles.len() - p,
    {
        let pv = &file.profiles[p];
        let mut s: usize = 0;
        while s < pv.samples.len()
            invariant
                s <= pv.samples.len(),
                p < file.profiles@.len(),
                *pv == file.profiles@[p as int],
                count == file.shared.frames@.len(),
                forall|t: int| 0 <= t < s ==> sample_in_range(count as nat, #[trigger] pv.samples@[t]@),
            decreases pv.samples.len() - s,
        {
            let sample = &pv.samples[s];
            let mut k: usize = 0;
            while k < sample.len()
                invariant
                    k <= sample.len(),
                    s < pv.samples@.len(),
                    p < file.profiles@.len(),
                    *pv == file.profiles@[p as int],
                    *sample == pv.samples@[s as int],
                    count == file.shared.frames@.len(),
                    forall|j: int| 0 <= j < k ==> #[trigger] sample@[j] < count,
                decreases sample.len() - k,
            {
                if sample[k] >= count {
                    assert(!sample_in_range(count as nat, pv.samples@[s as int]@));
                    assert(!profile_in_range(count as nat, file.profiles@[p as int]));
                    assert(!samples_in_range(*file));
                    return false;
                }
                k = k + 1;
            }
            s = s + 1;
        }
        p = p + 1;
    }
    true
}

impl Data {
    /// The profiles of a parsed file: each sample that is not empty becomes a
    /// stack of the frames its indices name, and each profile is stored under
    /// its name, a later profile replacing an earlier one of the same name.
    pub fn from_file(file: File) -> (data: Data)
        requires
            samples_in_range(file),
        ensures
            data@ == resolve_profiles(file.shared.frames@, file.profiles@),
    {
        let mut data = Data::new();
        let mut i: usize = 0;
        while i < file.profiles.len()
            invariant
                i <= file.profiles.len(),
                samples_in_range(file),
                data@ == resolve_profiles(file.shared.frames@, file.profiles@.take(i as int)),
            decreases file.profiles.len() - i,
        {
            let profile = resolve_profile_view(&file.shared.frames, &file.profiles[i]);
            data.insert(profile);
            assert(file.profiles@.take(i + 1).drop_last() =~= file.profiles@.take(i as int));
            i = i + 1;
        }
        assert(file.profiles@.take(file.profiles.len() as int) =~= file.profiles@);
        data
    }
}


/// A sequence whose every element passes a test is its own filter.
proof fn lemma_filter_all<A>(s: Seq<A>, pred: spec_fn(A) -> bool)
    requires
        forall|i: int| 0 <= i < s.len() ==> pred(#[trigger] s[i]),
    ensures
        s.filter(pred) == s,
    decreases s.len(),
{
    reveal(Seq::filter);
    if s.len() > 0 {
        lemma_filter_all(s.drop_last(), pred);
        assert(s.drop_last().push(s.last()) =~= s);
    }
}

/// After filtering, every stack has at least one frame, and every frame
/// names a source file that is not one of the filtered files.
pub proof fn law_filtered_stacks_are_clean(filter: Seq<Seq<char>>, stacks: Seq<Seq<Frame>>)
    ensures
        forall|i: int|
            0 <= i < filter_stacks(filter, stacks).len() ==> #[trigger] filter_stacks(filter, stacks)[i].len() > 0,
        forall|i: int, j: int|
            0 <= i < filter_stacks(filter, stacks).len() && 0 <= j < filter_stacks(filter, stacks)[i].len()
                ==> keeps_frame(filter, #[trigger] filter_stacks(filter, stacks)[i][j]),
{
    let mapped = stacks.map_values(frames_filtered_by(filter));
    let result = mapped.filter(stack_not_empty());
    broadcast use vstd::seq_lib::group_filter_ensures;

    assert forall|i: int, j: int|
        0 <= i < result.len() && 0 <= j < result[i].len() implies keeps_frame(filter, #[trigger] result[i][j]) by {
        mapped.lemma_filter_contains_rev(stack_not_empty(), result[i]);
        let k = choose|k: int| 0 <= k < mapped.len() && mapped[k] == result[i];
        assert(frame_kept_by(filter)(mapped[k][j]));
    }
}

/// Filtering twice with the same files gives what filtering once gives.
pub proof fn law_filter_idempotent(filter: Seq<Seq<char>>, p: ProfileModel)
    ensures
        filter_profile(filter, filter_profile(filter, p)) == filter_profile(filter, p),
{
    let once = filter_stacks(filter, p.stacks);
    law_filtered_stacks_are_clean(filter, p.stacks);
    assert forall|i: int| 0 <= i < once.len() implies #[trigger] filter_frames(filter, once[i]) == once[i] by {
        assert forall|j: int| 0 <= j < once[i].len() implies #[trigger] frame_kept_by(filter)(once[i][j]) by {
            assert(keeps_frame(filter, once[i][j]));
        }
        lemma_filter_all(once[i], frame_kept_by(filter));
    }
    let mapped = once.map_values(frames_filtered_by(filter));
    assert forall|i: int| 0 <= i < once.len() implies #[trigger] mapped[i] == once[i] by {
        assert(filter_frames(filter, once[i]) == once[i]);
    }
    assert(mapped =~= once);
    lemma_filter_all(once, stack_not_empty());
    assert(filter_stacks(filter, once) == once);
}

/// Every stack of every profile read from a file has at least one frame.
pub proof fn law_resolved_stacks_not_empty(frames: Seq<Frame>, pvs: Seq<ProfileView>, name: Seq<char>)
    requires
        resolve_profiles(frames, pvs).contains_key(name),
    ensures
        forall|i: int|
            0 <= i < resolve_profiles(frames, pvs)[name].stacks.len() ==> #[trigger] resolve_profiles(
                frames,
                pvs,
            )[name].stacks[i].len() > 0,
    decreases pvs.len(),
{
    if pvs.last().name@ == name {
        let samples = samples_view(pvs.last().samples@);
        let kept = samples.filter(sample_not_empty());
        broadcast use vstd::seq_lib::group_filter_ensures;

        assert forall|i: int| 0 <= i < kept.len() implies #[trigger] sample_stack(frames)(kept[i]).len() > 0 by {
            assert(sample_not_empty()(kept[i]));
        }
    } else {
        law_resolved_stacks_not_empty(frames, pvs.drop_last(), name);
    }
}


/// A name is in the data read from a file exactly when some profile of the
/// file has it, and the profile found under it is the last profile of the
/// file with that name.
pub proof fn law_last_profile_of_a_name_wins(frames: Seq<Frame>, pvs: Seq<ProfileView>, i: int)
    requires
        0 <= i < pvs.len(),
        forall|j: int| i < j < pvs.len() ==> #[trigger] pvs[j].name@ != pvs[i].name@,
    ensures
        resolve_profiles(frames, pvs).contains_key(pvs[i].name@),
        resolve_profiles(frames, pvs)[pvs[i].name@] == resolve_profile(frames, pvs[i]),
    decreases pvs.len(),
{
    if i < pvs.len() - 1 {
        let rest = pvs.drop_last();
        assert(pvs[pvs.len() - 1].name@ != pvs[i].name@);
        assert forall|j: int| i < j < rest.len() implies #[trigger] rest[j].name@ != rest[i].name@ by {
            assert(pvs[j].name@ != pvs[i].name@);
        }
        law_last_profile_of_a_name_wins(frames, rest, i);
    }
}

/// No name is in the data read from a file unless a profile of the file has it.
pub proof fn law_names_come_from_the_file(frames: Seq<Frame>, pvs: Seq<ProfileView>, name: Seq<char>)
    requires
        resolve_profiles(frames, pvs).contains_key(name),
    ensures
        exists|j: int| 0 <= j < pvs.len() && #[trigger] pvs[j].name@ == name,
    decreases pvs.len(),
{
    if pvs.last().name@ != name {
        law_names_come_from_the_file(frames, pvs.drop_last(), name);
        let j = choose|j: int| 0 <= j < pvs.drop_last().len() && #[trigger] pvs.drop_last()[j].name@ == name;
        assert(pvs[j].name@ == name);
    } else {
        assert(pvs[pvs.len() - 1].name@ == name);
    }
}


/// Filtering keeps exactly the frames that name a source file outside the
/// filter, whatever their function name: every frame it keeps is a frame of
/// the stack with such a file, and every such frame of the stack is kept.
pub proof fn law_filter_keeps_exactly_frames_outside_filter(filter: Seq<Seq<char>>, frames: Seq<Frame>)
    ensures
        forall|i: int|
            0 <= i < filter_frames(filter, frames).len() ==> {
                let kept = #[trigger] filter_frames(filter, frames)[i];
                &&& frames.contains(kept)
                &&& kept.file is Some
                &&& !filter.contains(kept.file.unwrap()@)
            },
        forall|j: int|
            0 <= j < frames.len() && (#[trigger] frames[j]).file is Some && !filter.contains(
                frames[j].file.unwrap()@,
            ) ==> filter_frames(filter, frames).contains(frames[j]),
{
    broadcast use vstd::seq_lib::group_filter_ensures;

    let pred = frame_kept_by(filter);
    assert forall|i: int| 0 <= i < filter_frames(filter, frames).len() implies {
        let kept = #[trigger] filter_frames(filter, frames)[i];
        &&& frames.contains(kept)
        &&& kept.file is Some
        &&& !filter.contains(kept.file.unwrap()@)
    } by {
        let kept = frames.filter(pred)[i];
        assert(pred(kept));
        assert(frames.filter(pred).contains(kept));
        frames.lemma_filter_contains_rev(pred, kept);
    }
    assert forall|j: int|
        0 <= j < frames.len() && (#[trigger] frames[j]).file is Some && !filter.contains(
            frames[j].file.unwrap()@,
        ) implies filter_frames(filter, frames).contains(frames[j]) by {
        assert(pred(frames[j]));
        frames.lemma_filter_contains(pred, j);
    }
}

/// Filtering changes nothing of a profile but its stacks, and every stack
/// that holds a frame with a file outside the filter is still there, cut
/// down to its kept frames.
pub proof fn law_filter_changes_only_stacks(filter: Seq<Seq<char>>, p: ProfileModel)
    ensures
        filter_profile(filter, p).profile_type == p.profile_type,
        filter_profile(filter, p).name == p.name,
        filter_profile(filter, p).unit == p.unit,
        filter_profile(filter, p).start_value == p.start_value,
        filter_profile(filter, p).end_value == p.end_value,
        filter_profile(filter, p).weights == p.weights,
        forall|i: int, j: int|
            0 <= i < p.stacks.len() && 0 <= j < p.stacks[i].len() && (#[trigger] p.stacks[i][j]).file is Some
                && !filter.contains(p.stacks[i][j].file.unwrap()@) ==> filter_profile(filter, p).stacks.contains(
                filter_frames(filter, p.stacks[i]),
            ),
{
    broadcast use vstd::seq_lib::group_filter_ensures;

    assert forall|i: int, j: int|
        0 <= i < p.stacks.len() && 0 <= j < p.stacks[i].len() && (#[trigger] p.stacks[i][j]).file is Some
            && !filter.contains(p.stacks[i][j].file.unwrap()@) implies filter_profile(filter, p).stacks.contains(
        filter_frames(filter, p.stacks[i]),
    ) by {
        law_filter_keeps_exactly_frames_outside_filter(filter, p.stacks[i]);
        let cut = filter_frames(filter, p.stacks[i]);
        assert(cut.contains(p.stacks[i][j]));
        assert(cut.len() > 0);
        let mapped = p.stacks.map_values(frames_filtered_by(filter));
        assert(mapped[i] == cut);
        assert(stack_not_empty()(mapped[i]));
        mapped.lemma_filter_contains(stack_not_empty(), i);
    }
}

/// A profile read from a file carries what the file wrote for its last
/// profile of that name: its type, name, unit, start and end values and
/// weights; every stack has frames, each one from the file's frame table;
/// and when no sample is empty, stack `k` is sample `k` with each index
/// replaced by the frame it names.
pub proof fn law_profile_read_from_file_carries_its_fields(frames: Seq<Frame>, pvs: Seq<ProfileView>, i: int)
    requires
        0 <= i < pvs.len(),
        forall|j: int| i < j < pvs.len() ==> #[trigger] pvs[j].name@ != pvs[i].name@,
        profile_in_range(frames.len(), pvs[i]),
    ensures
        ({
            let p = resolve_profiles(frames, pvs)[pvs[i].name@];
            let samples = pvs[i].samples@;
            &&& resolve_profiles(frames, pvs).contains_key(pvs[i].name@)
            &&& p.profile_type == pvs[i].profile_type
            &&& p.name == pvs[i].name@
            &&& p.unit == pvs[i].unit
            &&& p.start_value == pvs[i].start_value
            &&& p.end_value == pvs[i].end_value
            &&& p.weights == pvs[i].weights@
            &&& p.stacks.len() <= samples.len()
            &&& forall|k: int, f: int|
                0 <= k < p.stacks.len() && 0 <= f < p.stacks[k].len() ==> frames.contains(
                    #[trigger] p.stacks[k][f],
                )
            &&& (forall|s: int| 0 <= s < samples.len() ==> (#[trigger] samples[s])@.len() > 0) ==> {
                &&& p.stacks.len() == samples.len()
                &&& forall|k: int, f: int|
                    0 <= k < samples.len() && 0 <= f < samples[k]@.len() ==> {
                        &&& p.stacks[k].len() == samples[k]@.len()
                        &&& #[trigger] p.stacks[k][f] == frames[samples[k]@[f] as int]
                    }
            }
        }),
{
    broadcast use vstd::seq_lib::group_filter_ensures;

    law_last_profile_of_a_name_wins(frames, pvs, i);
    let pv = pvs[i];
    let sv = samples_view(pv.samples@);
    let kept = sv.filter(sample_not_empty());
    let p = resolve_profile(frames, pv);
    assert forall|k: int, f: int| 0 <= k < p.stacks.len() && 0 <= f < p.stacks[k].len() implies frames.contains(
        #[trigger] p.stacks[k][f],
    ) by {
        assert(kept.contains(kept[k]));
        sv.lemma_filter_contains_rev(sample_not_empty(), kept[k]);
        let s = choose|s: int| 0 <= s < sv.len() && sv[s] == kept[k];
        assert(sample_in_range(frames.len(), pv.samples@[s]@));
        assert(kept[k][f] < frames.len());
        assert(p.stacks[k][f] == frames[kept[k][f] as int]);
    }
    if forall|s: int| 0 <= s < pv.samples@.len() ==> (#[trigger] pv.samples@[s])@.len() > 0 {
        assert forall|s: int| 0 <= s < sv.len() implies #[trigger] sample_not_empty()(sv[s]) by {
            assert(pv.samples@[s]@.len() > 0);
        }
        lemma_filter_all(sv, sample_not_empty());
    }
}


/// Filtering works frame by frame and keeps the order: the frames kept from
/// two pieces of a stack are those kept from the first piece followed by
/// those kept from the second, and a single frame is kept exactly when it
/// names a file outside the filter.
pub proof fn law_filter_frames_piecewise(filter: Seq<Seq<char>>, a: Seq<Frame>, b: Seq<Frame>, x: Frame)
    ensures
        filter_frames(filter, a + b) == filter_frames(filter, a) + filter_frames(filter, b),
        (x.file is Some && !filter.contains(x.file.unwrap()@)) ==> filter_frames(filter, seq![x]) == seq![x],
        !(x.file is Some && !filter.contains(x.file.unwrap()@)) ==> filter_frames(filter, seq![x]) == Seq::<
            Frame,
        >::empty(),
{
    Seq::filter_distributes_over_add(a, b, frame_kept_by(filter));
    reveal_with_fuel(Seq::filter, 2);
    assert(seq![x].drop_last() =~= Seq::<Frame>::empty());
}

/// Filtering stacks works stack by stack and keeps the order: the stacks
/// kept from two runs of stacks are those kept from the first followed by
/// those kept from the second, and a single stack gives its kept frames, or
/// nothing when no frame of it is kept.
pub proof fn law_filter_stacks_piecewise(
    filter: Seq<Seq<char>>,
    a: Seq<Seq<Frame>>,
    b: Seq<Seq<Frame>>,
    x: Seq<Frame>,
)
    ensures
        filter_stacks(filter, a + b) == filter_stacks(filter, a) + filter_stacks(filter, b),
        filter_frames(filter, x).len() > 0 ==> filter_stacks(filter, seq![x]) == seq![filter_frames(filter, x)],
        filter_frames(filter, x).len() == 0 ==> filter_stacks(filter, seq![x]) == Seq::<Seq<Frame>>::empty(),
{
    let f = frames_filtered_by(filter);
    assert((a + b).map_values(f) =~= a.map_values(f) + b.map_values(f));
    Seq::filter_distributes_over_add(a.map_values(f), b.map_values(f), stack_not_empty());
    reveal_with_fuel(Seq::filter, 2);
    let one = seq![x].map_values(f);
    assert(one =~= seq![filter_frames(filter, x)]);
    assert(one.drop_last() =~= Seq::<Seq<Frame>>::empty());
}

/// Reading samples works sample by sample and keeps the order: the stacks
/// read from two runs of samples are those of the first followed by those
/// of the second; an empty sample gives no stack, and any other sample gives
/// one stack, its indices replaced by the frames they name.
pub proof fn law_resolve_stacks_piecewise(
    frames: Seq<Frame>,
    a: Seq<Seq<usize>>,
    b: Seq<Seq<usize>>,
    x: Seq<usize>,
)
    ensures
        resolve_stacks(frames, a + b) == resolve_stacks(frames, a) + resolve_stacks(frames, b),
        x.len() == 0 ==> resolve_stacks(frames, seq![x]) == Seq::<Seq<Frame>>::empty(),
        x.len() > 0 ==> resolve_stacks(frames, seq![x]).len() == 1,
        x.len() > 0 ==> resolve_stacks(frames, seq![x])[0].len() == x.len(),
        x.len() > 0 ==> forall|k: int|
            0 <= k < x.len() ==> #[trigger] resolve_stacks(frames, seq![x])[0][k] == frames[x[k] as int],
{
    let ne = sample_not_empty();
    let g = sample_stack(frames);
    Seq::filter_distributes_over_add(a, b, ne);
    assert((a.filter(ne) + b.filter(ne)).map_values(g) =~= a.filter(ne).map_values(g) + b.filter(ne).map_values(
        g,
    ));
    reveal_with_fuel(Seq::filter, 2);
    assert(seq![x].drop_last() =~= Seq::<Seq<usize>>::empty());
    if x.len() > 0 {
        assert(seq![x].filter(ne) =~= seq![x]);
    } else {
        assert(seq![x].filter(ne) =~= Seq::<Seq<usize>>::empty());
    }
}

} // verus!
