use cebra_efficiency::{
    distinct_detector_names, pooled_observations, DetectorObservations, FitRegistry,
};

type Obs = (f64, f64, f64);

fn detector(name: &str, obs: &[Obs]) -> DetectorObservations<Obs> {
    DetectorObservations { name: name.to_string(), observations: obs.to_vec() }
}

fn keys(r: &FitRegistry<Obs, &'static str>) -> Vec<String> {
    let mut k: Vec<String> = r.entries().iter().map(|e| e.name.clone()).collect();
    k.sort();
    k
}

fn two_measurements() -> Vec<Vec<DetectorObservations<Obs>>> {
    vec![
        vec![
            detector("A", &[(121.8, 1.5, 10.0), (244.7, 1.1, 9.0)]),
            detector("B", &[(121.8, 0.9, 8.0)]),
        ],
        vec![detector("A", &[(846.8, 0.4, 20.0)]), detector("C", &[])],
    ]
}

#[test]
fn distinct_names_in_order_of_first_occurrence() {
    let names = distinct_detector_names(&two_measurements());
    assert_eq!(names, vec!["A".to_string(), "B".to_string(), "C".to_string()]);
    let none: Vec<Vec<DetectorObservations<Obs>>> = vec![vec![], vec![]];
    assert!(distinct_detector_names(&none).is_empty());
}

#[test]
fn observations_pool_across_measurements() {
    let ms = two_measurements();
    let a = pooled_observations(&ms, &"A".to_string());
    assert_eq!(a, vec![(121.8, 1.5, 10.0), (244.7, 1.1, 9.0), (846.8, 0.4, 20.0)]);
    let b = pooled_observations(&ms, &"B".to_string());
    assert_eq!(b, vec![(121.8, 0.9, 8.0)]);
    assert!(pooled_observations(&ms, &"C".to_string()).is_empty());
    assert!(pooled_observations(&ms, &"Z".to_string()).is_empty());
}

#[test]
fn registry_keys_follow_detector_names() {
    let mut ms = two_measurements();
    let mut r: FitRegistry<Obs, &'static str> = FitRegistry::new();
    assert!(r.entries().is_empty());
    r.synchronize(&ms);
    assert_eq!(keys(&r), vec!["A", "B", "C"]);

    // remove a detector
    ms[0].remove(1);
    r.synchronize(&ms);
    assert_eq!(keys(&r), vec!["A", "C"]);

    // add a detector to an existing measurement
    ms[1].push(detector("D", &[(1.0, 2.0, 3.0)]));
    r.synchronize(&ms);
    assert_eq!(keys(&r), vec!["A", "C", "D"]);

    // remove a measurement
    ms.remove(0);
    r.synchronize(&ms);
    assert_eq!(keys(&r), vec!["A", "C", "D"]);
    assert_eq!(r.get(&"A".to_string()).unwrap().observations, vec![(846.8, 0.4, 20.0)]);

    // add a measurement
    ms.push(vec![detector("E", &[(5.0, 6.0, 7.0)])]);
    r.synchronize(&ms);
    assert_eq!(keys(&r), vec!["A", "C", "D", "E"]);

    // remove everything
    ms.clear();
    r.synchronize(&ms);
    assert!(keys(&r).is_empty());
}

#[test]
fn fits_survive_resynchronization() {
    let mut ms = two_measurements();
    let mut r: FitRegistry<Obs, &'static str> = FitRegistry::new();
    r.synchronize(&ms);
    assert!(r.record_fit(&"A".to_string(), "fit of A"));
    assert!(!r.record_fit(&"Z".to_string(), "nobody"));
    ms[1].push(detector("A", &[(1408.0, 0.2, 30.0)]));
    r.synchronize(&ms);
    let a = r.get(&"A".to_string()).unwrap();
    assert_eq!(a.fit, Some("fit of A"));
    assert_eq!(a.observations.len(), 4);
    assert_eq!(r.get(&"B".to_string()).unwrap().fit, None);
    assert!(r.get(&"Z".to_string()).is_none());
}

#[test]
fn dropped_name_loses_its_fit() {
    let mut ms = two_measurements();
    let mut r: FitRegistry<Obs, &'static str> = FitRegistry::new();
    r.synchronize(&ms);
    assert!(r.record_fit(&"B".to_string(), "fit of B"));
    ms[0].remove(1);
    r.synchronize(&ms);
    assert!(r.get(&"B".to_string()).is_none());
    ms[0].push(detector("B", &[(121.8, 0.9, 8.0)]));
    r.synchronize(&ms);
    assert_eq!(r.get(&"B".to_string()).unwrap().fit, None);
}

#[test]
fn renamed_detector_starts_a_new_entry() {
    let mut ms = two_measurements();
    let mut r: FitRegistry<Obs, &'static str> = FitRegistry::new();
    r.synchronize(&ms);
    assert!(r.record_fit(&"B".to_string(), "fit of B"));
    ms[0][1].name = "B2".to_string();
    r.synchronize(&ms);
    assert!(r.get(&"B".to_string()).is_none());
    let renamed = r.get(&"B2".to_string()).unwrap();
    assert_eq!(renamed.fit, None);
    assert_eq!(renamed.observations, vec![(121.8, 0.9, 8.0)]);
}

#[test]
fn clearing_a_fit_keeps_observations() {
    let ms = two_measurements();
    let mut r: FitRegistry<Obs, &'static str> = FitRegistry::new();
    r.synchronize(&ms);
    assert!(r.record_fit(&"A".to_string(), "first"));
    assert!(r.record_fit(&"A".to_string(), "second"));
    assert_eq!(r.get(&"A".to_string()).unwrap().fit, Some("second"));
    assert!(r.clear_fit(&"A".to_string()));
    let a = r.get(&"A".to_string()).unwrap();
    assert_eq!(a.fit, None);
    assert_eq!(a.observations.len(), 3);
    assert!(!r.clear_fit(&"Z".to_string()));
}

#[test]
fn synchronizing_twice_changes_nothing() {
    let ms = two_measurements();
    let mut r: FitRegistry<Obs, &'static str> = FitRegistry::new();
    r.synchronize(&ms);
    r.record_fit(&"C".to_string(), "fit of C");
    let once: Vec<(String, Vec<Obs>, Option<&str>)> =
        r.entries().iter().map(|e| (e.name.clone(), e.observations.clone(), e.fit)).collect();
    r.synchronize(&ms);
    let twice: Vec<(String, Vec<Obs>, Option<&str>)> =
        r.entries().iter().map(|e| (e.name.clone(), e.observations.clone(), e.fit)).collect();
    assert_eq!(once, twice);
}
