use speedscope_tui::speedscope::{
    contains_name, samples_in_range_of, Data, File, Frame, Profile, ProfileType, ProfileView, Shared, Stack, ValueUnit,
};

fn frame(name: &str, file: Option<&str>, line: Option<usize>) -> Frame {
    Frame {
        name: name.to_string(),
        file: file.map(|f| f.to_string()),
        line,
        col: None,
    }
}

fn view(name: &str, samples: Vec<Vec<usize>>) -> ProfileView {
    ProfileView {
        profile_type: ProfileType::sampled,
        name: name.to_string(),
        unit: ValueUnit::Seconds,
        start_value: 1.5f64.to_bits(),
        end_value: 9.25f64.to_bits(),
        weights: samples.iter().map(|_| 1.0f64.to_bits()).collect(),
        samples,
    }
}

fn file(profiles: Vec<ProfileView>) -> File {
    File {
        schema: "https://www.speedscope.app/file-format-schema.json".to_string(),
        profiles,
        shared: Shared {
            frames: vec![
                frame("main", Some("app.py"), Some(10)),
                frame("run", Some("lib.py"), Some(20)),
                frame("<module>", None, None),
            ],
        },
    }
}

fn names(stack: &Stack) -> Vec<String> {
    stack.frames.iter().map(|f| f.name.clone()).collect()
}

#[test]
fn stack_len_counts_frames() {
    let stack = Stack { frames: vec![frame("a", None, None), frame("b", Some("x.py"), Some(1))] };
    assert_eq!(stack.len(), 2);
    assert_eq!(Stack { frames: vec![] }.len(), 0);
}

#[test]
fn from_file_resolves_samples_and_drops_empty_ones() {
    let data = Data::from_file(file(vec![view("MainThread", vec![vec![0, 1], vec![], vec![1, 2]])]));
    assert_eq!(data.len(), 1);
    let p = data.get(&"MainThread".to_string()).unwrap();
    assert_eq!(p.len(), 2);
    assert_eq!(names(&p.stacks[0]), vec!["main", "run"]);
    assert_eq!(names(&p.stacks[1]), vec!["run", "<module>"]);
    assert_eq!(p.stacks[0].frames[1].file.as_deref(), Some("lib.py"));
    assert_eq!(p.stacks[0].frames[1].line, Some(20));
    assert_eq!(p.weights.len(), 3);
    assert_eq!(f64::from_bits(p.start_value), 1.5);
    assert_eq!(f64::from_bits(p.end_value), 9.25);
    assert_eq!(p.unit, ValueUnit::Seconds);
    assert_eq!(p.profile_type, ProfileType::sampled);
}

#[test]
fn from_file_keeps_the_last_profile_of_a_name() {
    let data = Data::from_file(file(vec![
        view("T", vec![vec![0]]),
        view("U", vec![vec![1]]),
        view("T", vec![vec![1], vec![0, 1]]),
    ]));
    assert_eq!(data.len(), 2);
    let t = data.get(&"T".to_string()).unwrap();
    assert_eq!(t.len(), 2);
    assert_eq!(names(&t.stacks[1]), vec!["main", "run"]);
    assert_eq!(data.get(&"U".to_string()).unwrap().len(), 1);
    assert!(data.get(&"V".to_string()).is_none());
}

#[test]
fn from_file_with_no_profiles_is_empty() {
    let data = Data::from_file(file(vec![]));
    assert_eq!(data.len(), 0);
    assert!(data.any_profile().is_none());
}

#[test]
fn data_insert_replaces_same_name() {
    let mut data = Data::new();
    assert_eq!(data.len(), 0);
    let first = Data::from_file(file(vec![view("P", vec![vec![0]])]));
    let p = first.get(&"P".to_string()).unwrap();
    let copy = |p: &Profile, n: &str| Profile {
        profile_type: p.profile_type,
        name: n.to_string(),
        unit: p.unit,
        start_value: p.start_value,
        end_value: p.end_value,
        stacks: vec![],
        weights: vec![],
    };
    data.insert(copy(p, "P"));
    data.insert(copy(p, "Q"));
    assert_eq!(data.len(), 2);
    data.insert(p.with_filter(&vec![]));
    assert_eq!(data.len(), 2);
    assert_eq!(data.get(&"P".to_string()).unwrap().len(), 1);
    assert_eq!(data.get(&"Q".to_string()).unwrap().len(), 0);
    let any = data.any_profile().unwrap();
    assert!(any.name == "P" || any.name == "Q");
}

#[test]
fn with_filter_drops_filtered_and_fileless_frames_and_empty_stacks() {
    let data = Data::from_file(file(vec![view("P", vec![vec![0, 1, 2], vec![2], vec![1], vec![0, 2, 1]])]));
    let p = data.get(&"P".to_string()).unwrap();
    let filtered = p.with_filter(&vec!["lib.py".to_string()]);
    assert_eq!(filtered.len(), 2);
    assert_eq!(names(&filtered.stacks[0]), vec!["main"]);
    assert_eq!(names(&filtered.stacks[1]), vec!["main"]);
    assert_eq!(filtered.name, "P");
    assert_eq!(filtered.weights, p.weights);
    assert_eq!(filtered.start_value, p.start_value);

    let unfiltered = p.with_filter(&vec![]);
    assert_eq!(unfiltered.len(), 3);
    assert_eq!(names(&unfiltered.stacks[0]), vec!["main", "run"]);
    assert_eq!(names(&unfiltered.stacks[1]), vec!["run"]);
    assert_eq!(names(&unfiltered.stacks[2]), vec!["main", "run"]);
}

#[test]
fn with_filter_twice_is_with_filter_once() {
    let data = Data::from_file(file(vec![view("P", vec![vec![0, 1, 2], vec![2], vec![1, 0]])]));
    let p = data.get(&"P".to_string()).unwrap();
    let filter = vec!["app.py".to_string()];
    let once = p.with_filter(&filter);
    let twice = once.with_filter(&filter);
    assert_eq!(once.len(), twice.len());
    for (a, b) in once.stacks.iter().zip(twice.stacks.iter()) {
        assert_eq!(names(a), names(b));
    }
    assert_eq!(once.len(), 2);
}

#[test]
fn contains_name_finds_exact_names() {
    let names = vec!["a.py".to_string(), "<string>".to_string()];
    assert!(contains_name(&names, &"<string>".to_string()));
    assert!(!contains_name(&names, &"a".to_string()));
    assert!(!contains_name(&vec![], &"a.py".to_string()));
}

#[test]
fn frame_clone_is_equal() {
    let f = frame("f", Some("f.py"), Some(3));
    let g = f.clone();
    assert_eq!(g.name, "f");
    assert_eq!(g.file.as_deref(), Some("f.py"));
    assert_eq!(g.line, Some(3));
    assert_eq!(g.col, None);
}

#[test]
fn samples_in_range_of_checks_every_index() {
    assert!(samples_in_range_of(&file(vec![view("P", vec![vec![0, 1, 2], vec![]])])));
    assert!(samples_in_range_of(&file(vec![])));
    assert!(!samples_in_range_of(&file(vec![view("P", vec![vec![0]]), view("Q", vec![vec![1, 3]])])));
}
