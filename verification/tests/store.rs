use varstore::{Device, Init, Kind, StoreError, Tensor, VarStore};

fn add_vars(vs: &mut VarStore) -> (Tensor, Tensor) {
    let root = vs.root();
    let v = root.sub("a").sub("b").ones(vs, "t2", &vec![3]);
    let u = root.zeros(vs, "t1", &vec![4]);
    let _w = root.sub("a").sub("b").sub("ccc").ones(vs, "t123", &vec![3]);
    let _w = root.sub("a").sub("b").sub("ccc").ones(vs, "t123", &vec![3]);
    (u, v)
}

fn values_of(vs: &VarStore, name: &str) -> Vec<i64> {
    vs.get(&String::from(name)).unwrap().values()
}

#[test]
fn save_and_load_var_store() {
    let mut vs1 = VarStore::new(Device::Cpu);
    let mut vs2 = VarStore::new(Device::Cpu);
    let (u1, v1) = add_vars(&mut vs1);
    let (u2, v2) = add_vars(&mut vs2);
    assert_eq!(u1.values(), vec![0, 0, 0, 0]);
    assert_eq!(v1.values(), vec![1, 1, 1]);
    assert_eq!(u2.values(), vec![0, 0, 0, 0]);
    assert_eq!(v2.values(), vec![1, 1, 1]);
    vs1.set(
        &String::from("t1"),
        &Tensor::full(&vec![4], 42, Kind::Float, Device::Cpu),
    )
    .unwrap();
    vs1.set(
        &String::from("a.b.t2"),
        &Tensor::full(&vec![3], 2, Kind::Float, Device::Cpu),
    )
    .unwrap();
    assert_eq!(values_of(&vs1, "t1"), vec![42, 42, 42, 42]);
    assert_eq!(values_of(&vs1, "a.b.t2"), vec![2, 2, 2]);
    assert_eq!(values_of(&vs2, "t1"), vec![0, 0, 0, 0]);
    assert_eq!(values_of(&vs2, "a.b.t2"), vec![1, 1, 1]);
    let saved = vs1.save();
    vs2.load(&saved).unwrap();
    assert_eq!(values_of(&vs1, "t1"), vec![42, 42, 42, 42]);
    assert_eq!(values_of(&vs2, "t1"), vec![42, 42, 42, 42]);
    assert_eq!(values_of(&vs2, "a.b.t2"), vec![2, 2, 2]);
    // The load touched no trainability flag.
    assert_eq!(vs2.trainable_variables().len(), 4);
}

#[test]
fn save_and_load_partial_var_store() {
    let mut vs1 = VarStore::new(Device::Cpu);
    let mut vs2 = VarStore::new(Device::Cpu);
    let (_u1, _v1) = add_vars(&mut vs1);
    let (_u2, _v2) = add_vars(&mut vs2);
    vs1.set(
        &String::from("t1"),
        &Tensor::full(&vec![4], 42, Kind::Float, Device::Cpu),
    )
    .unwrap();
    vs1.set(
        &String::from("a.b.t2"),
        &Tensor::full(&vec![3], 2, Kind::Float, Device::Cpu),
    )
    .unwrap();
    let saved = vs1.save();
    let missing = vs2.load_partial(&saved).unwrap();
    assert!(missing.is_empty());
    assert_eq!(values_of(&vs2, "t1"), vec![42, 42, 42, 42]);
    assert_eq!(values_of(&vs2, "a.b.t2"), vec![2, 2, 2]);
}

fn add_vars_without_t2(vs: &mut VarStore) -> Tensor {
    let root = vs.root();
    let u = root.zeros(vs, "t1", &vec![4]);
    let _w = root.sub("a").sub("b").sub("ccc").ones(vs, "t123", &vec![3]);
    u
}

fn add_vars_with_t2(vs: &mut VarStore) -> (Tensor, Tensor) {
    let root = vs.root();
    let v = root.sub("a").sub("b").ones(vs, "t2", &vec![3]);
    let u = root.zeros(vs, "t1", &vec![4]);
    let _w = root.sub("a").sub("b").sub("ccc").ones(vs, "t123", &vec![3]);
    (u, v)
}

#[test]
#[should_panic]
fn save_and_load_var_store_incomplete_file() {
    let mut vs1 = VarStore::new(Device::Cpu);
    let mut vs2 = VarStore::new(Device::Cpu);
    let _u1 = add_vars_without_t2(&mut vs1);
    let (_u2, _v2) = add_vars_with_t2(&mut vs2);
    vs1.set(
        &String::from("t1"),
        &Tensor::full(&vec![4], 42, Kind::Float, Device::Cpu),
    )
    .unwrap();
    let saved = vs1.save();
    vs2.load(&saved).unwrap();
}

#[test]
fn save_and_load_partial_var_store_incomplete_file() {
    let mut vs1 = VarStore::new(Device::Cpu);
    let mut vs2 = VarStore::new(Device::Cpu);
    let _u1 = add_vars_without_t2(&mut vs1);
    let (_u2, _v2) = add_vars_with_t2(&mut vs2);
    vs1.set(
        &String::from("t1"),
        &Tensor::full(&vec![4], 42, Kind::Float, Device::Cpu),
    )
    .unwrap();
    let saved = vs1.save();
    let missing = vs2.load_partial(&saved).unwrap();
    assert_eq!(missing, vec![String::from("a.b.t2")]);
    assert_eq!(values_of(&vs2, "t1"), vec![42, 42, 42, 42]);
    // The absent variable kept its existing value.
    assert_eq!(values_of(&vs2, "a.b.t2"), vec![1, 1, 1]);
}

#[test]
fn init_test() {
    let mut vs = VarStore::new(Device::Cpu);
    let root = vs.root();
    let zeros = root.zeros(&mut vs, "t1", &vec![3]);
    assert_eq!(zeros.values(), vec![0, 0, 0]);
    let zeros2 = root.var(&mut vs, "t2", &vec![3], Init::Const(0));
    assert_eq!(zeros2.values(), vec![0, 0, 0]);
    let ones = root.var(&mut vs, "t3", &vec![3], Init::Const(1));
    assert_eq!(ones.values(), vec![1, 1, 1]);
    let forty_two = root.var(&mut vs, "t4", &vec![2], Init::Const(42));
    assert_eq!(forty_two.values(), vec![42, 42]);
    let uniform = root.var(&mut vs, "t5", &vec![100], Init::Uniform { lo: 1, up: 100 });
    let uniform_min = uniform.values().into_iter().min().unwrap();
    let uniform_max = uniform.values().into_iter().max().unwrap();
    assert!(uniform_min >= 1, "min {}", uniform_min);
    assert!(uniform_max < 100, "max {}", uniform_max);
    let normal = root.randn_standard(&mut vs, "normal", &vec![100]);
    assert!(normal.values().into_iter().all(|x| -1 <= x && x <= 1));
    let kaiming = root.kaiming_uniform(&mut vs, "w", &vec![8, 2]);
    assert!(kaiming.values().into_iter().all(|x| -1 <= x && x <= 1));
}

#[test]
fn registered_names_stay_unique() {
    let mut vs = VarStore::new(Device::Cpu);
    let root = vs.root();
    let t1 = root.zeros(&mut vs, "key", &vec![3, 1, 4]);
    let t2 = root.zeros(&mut vs, "key", &vec![1, 5, 9]);
    assert_eq!(t1.size(), vec![3, 1, 4]);
    assert_eq!(t2.size(), vec![1, 5, 9]);
    let names: Vec<String> = vs.save().into_iter().map(|p| p.0).collect();
    assert_eq!(names, vec![String::from("key"), String::from("key__1")]);
    assert_eq!(
        vs.get(&String::from("key")).unwrap().size(),
        vec![3, 1, 4]
    );
    assert_eq!(
        vs.get(&String::from("key__1")).unwrap().size(),
        vec![1, 5, 9]
    );
}

#[test]
fn registered_names_survive_adversarial_collisions() {
    let mut vs = VarStore::new(Device::Cpu);
    let root = vs.root();
    let _a = root.zeros(&mut vs, "k", &vec![1]);
    let _b = root.zeros(&mut vs, "k__2", &vec![1]);
    // "k" collides, and so does its first suffixed candidate "k__2".
    let _c = root.zeros(&mut vs, "k", &vec![1]);
    let names: Vec<String> = vs.save().into_iter().map(|p| p.0).collect();
    assert_eq!(
        names,
        vec![
            String::from("k"),
            String::from("k__2"),
            String::from("k__2__2")
        ]
    );
}

#[test]
fn separator_detection() {
    assert!(varstore::text::contains_sep("a.b"));
    assert!(!varstore::text::contains_sep("ab"));
    assert!(!varstore::text::contains_sep(""));
}

#[test]
fn nested_paths_join_with_dots() {
    let mut vs = VarStore::new(Device::Cpu);
    let root = vs.root();
    let sub = root.sub("encoder").sub("block1").sub("ln");
    assert_eq!(sub.device(), Device::Cpu);
    let _t = sub.ones(&mut vs, "weight", &vec![2]);
    let names: Vec<String> = vs.save().into_iter().map(|p| p.0).collect();
    assert_eq!(names, vec![String::from("encoder.block1.ln.weight")]);
}

#[test]
fn freeze_then_unfreeze_restores_gradient_state() {
    let mut vs = VarStore::new(Device::Cpu);
    let root = vs.root();
    let w = root.ones(&mut vs, "w", &vec![2]);
    let _s = root.zeros_no_train(&mut vs, "stat", &vec![2]);
    assert!(w.requires_grad());
    assert!(!vs.get(&String::from("stat")).unwrap().requires_grad());
    vs.freeze();
    assert!(!vs.get(&String::from("w")).unwrap().requires_grad());
    // The trainability flag itself is untouched.
    assert_eq!(vs.trainable_variables().len(), 1);
    vs.unfreeze();
    assert!(vs.get(&String::from("w")).unwrap().requires_grad());
    assert!(!vs.get(&String::from("stat")).unwrap().requires_grad());
    assert_eq!(vs.trainable_variables().len(), 1);
}

#[test]
fn copy_is_a_deep_copy() {
    let mut vs = VarStore::new(Device::Cpu);
    let root = vs.root();
    let _w = root.ones(&mut vs, "w", &vec![2]);
    let copied = vs.copy(Device::Cuda(0));
    assert_eq!(copied.device(), Device::Cuda(0));
    assert_eq!(copied.get(&String::from("w")).unwrap().device(), Device::Cuda(0));
    // Mutating the source after the copy leaves the copy's values alone.
    vs.set(
        &String::from("w"),
        &Tensor::full(&vec![2], 9, Kind::Float, Device::Cpu),
    )
    .unwrap();
    assert_eq!(values_of(&vs, "w"), vec![9, 9]);
    assert_eq!(copied.get(&String::from("w")).unwrap().values(), vec![1, 1]);
}

#[test]
fn copy_to_merges_and_appends() {
    let mut vs1 = VarStore::new(Device::Cpu);
    let root1 = vs1.root();
    let _a = root1.ones(&mut vs1, "a", &vec![2]);
    let _b = root1.var(&mut vs1, "b", &vec![2], Init::Const(5));
    let mut vs2 = VarStore::new(Device::Cpu);
    let root2 = vs2.root();
    let _a2 = root2.zeros_no_train(&mut vs2, "a", &vec![2]);
    let _c2 = root2.zeros(&mut vs2, "c", &vec![1]);
    vs1.copy_to(&mut vs2);
    let names: Vec<String> = vs2.save().into_iter().map(|p| p.0).collect();
    assert_eq!(
        names,
        vec![String::from("a"), String::from("c"), String::from("b")]
    );
    assert_eq!(values_of(&vs2, "a"), vec![1, 1]);
    assert_eq!(values_of(&vs2, "b"), vec![5, 5]);
    assert_eq!(values_of(&vs2, "c"), vec![0]);
    // "a" took vs1's trainability flag along with its values.
    assert_eq!(vs2.trainable_variables().len(), 3);
}

#[test]
fn var_copy_copies_values_onto_the_store_device() {
    let mut vs = VarStore::new(Device::Cpu);
    let root = vs.root();
    let src = Tensor::from_values(vec![7, 8, 9], Kind::Int64, Device::Cuda(1));
    let t = root.var_copy(&mut vs, "w", &src);
    assert_eq!(t.values(), vec![7, 8, 9]);
    assert_eq!(t.size(), vec![3]);
    assert_eq!(t.device(), Device::Cpu);
    assert!(t.requires_grad());
}

#[test]
fn set_reports_missing_and_mismatched_variables() {
    let mut vs = VarStore::new(Device::Cpu);
    let root = vs.root();
    let _w = root.zeros(&mut vs, "w", &vec![2]);
    let wrong = Tensor::full(&vec![3], 1, Kind::Float, Device::Cpu);
    assert!(matches!(
        vs.set(&String::from("nope"), &wrong),
        Err(StoreError::MissingVariable(n)) if n == "nope"
    ));
    assert!(matches!(
        vs.set(&String::from("w"), &wrong),
        Err(StoreError::ShapeMismatch(n)) if n == "w"
    ));
    assert_eq!(values_of(&vs, "w"), vec![0, 0]);
}

#[test]
fn load_rejects_a_mismatched_shape() {
    let mut vs1 = VarStore::new(Device::Cpu);
    let root1 = vs1.root();
    let _w = root1.ones(&mut vs1, "w", &vec![3]);
    let mut vs2 = VarStore::new(Device::Cpu);
    let root2 = vs2.root();
    let _w2 = root2.zeros(&mut vs2, "w", &vec![2]);
    let saved = vs1.save();
    assert!(matches!(
        vs2.load(&saved),
        Err(StoreError::ShapeMismatch(n)) if n == "w"
    ));
    assert!(matches!(
        vs2.load_partial(&saved),
        Err(StoreError::ShapeMismatch(n)) if n == "w"
    ));
    // A failed load wrote nothing.
    assert_eq!(values_of(&vs2, "w"), vec![0, 0]);
}

#[test]
fn load_reports_the_first_missing_variable() {
    let mut vs1 = VarStore::new(Device::Cpu);
    let root1 = vs1.root();
    let _x = root1.ones(&mut vs1, "x", &vec![1]);
    let mut vs2 = VarStore::new(Device::Cpu);
    let root2 = vs2.root();
    let _x2 = root2.zeros(&mut vs2, "x", &vec![1]);
    let _y2 = root2.zeros(&mut vs2, "y", &vec![1]);
    let saved = vs1.save();
    assert!(matches!(
        vs2.load(&saved),
        Err(StoreError::MissingVariable(n)) if n == "y"
    ));
    assert_eq!(values_of(&vs2, "x"), vec![0]);
}
