use authds::commitment::is_hashable;
use authds::{AuthError, Db, Opened, Proof, Prover, Verifier};
use serde_json::Value;
use sha1::{Digest, Sha1};

pub enum Tree {
    Tip(u32),
    Bin(u32, Box<Proof<Tree>>, Box<Proof<Tree>>),
}

pub enum Dir {
    L,
    R,
}

type Path = [Dir];

fn encode(t: &Tree) -> String {
    let mut m = serde_json::Map::new();
    match t {
        Tree::Tip(u) => {
            m.insert("Tip".to_string(), Value::from(*u));
        }
        Tree::Bin(a, l, r) => {
            let parts = vec![
                Value::from(*a),
                Value::String(l.to_hex()),
                Value::String(r.to_hex()),
            ];
            m.insert("Bin".to_string(), Value::Array(parts));
        }
    }
    serde_json::to_string(&Value::Object(m)).unwrap()
}

fn decode(s: &str) -> Tree {
    let v: Value = serde_json::from_str(s).unwrap();
    let m = v.as_object().unwrap();
    if let Some(u) = m.get("Tip") {
        return Tree::Tip(u.as_u64().unwrap() as u32);
    }
    let parts = m.get("Bin").unwrap().as_array().unwrap();
    let a = parts[0].as_u64().unwrap() as u32;
    let l = Proof::from_hex(parts[1].as_str().unwrap()).unwrap();
    let r = Proof::from_hex(parts[2].as_str().unwrap()).unwrap();
    Tree::Bin(a, Box::new(l), Box::new(r))
}

fn auth<D: Db>(db: &mut D, t: Tree) -> Proof<Tree> {
    let s = encode(&t);
    assert!(is_hashable(&s));
    db.auth(t, s)
}

fn unauth<D: Db>(db: &mut D, p: Proof<Tree>) -> Result<Tree, AuthError> {
    match db.unauth(p)? {
        Opened::Value(t) => Ok(t),
        Opened::Entry(s) => Ok(decode(&s)),
    }
}

fn tip(u: u32) -> Tree {
    Tree::Tip(u)
}

fn bin<D: Db>(db: &mut D, a: u32, l: Tree, r: Tree) -> Tree {
    let nl = auth(db, l);
    let nr = auth(db, r);
    Tree::Bin(a, Box::new(nl), Box::new(nr))
}

fn at<D: Db>(db: &mut D, mut t: Tree, p: &Path) -> Result<Option<u32>, AuthError> {
    for ele in p {
        if let Tree::Bin(_a, l, r) = t {
            let nt = match ele {
                Dir::L => l,
                Dir::R => r,
            };
            t = unauth(db, *nt)?;
        } else {
            return Ok(None);
        }
    }
    Ok(match t {
        Tree::Bin(a, _, _) => Some(a),
        Tree::Tip(a) => Some(a),
    })
}

fn build<D: Db>(db: &mut D) -> Tree {
    let y = bin(db, 0, tip(1), tip(2));
    bin(db, 0, y, tip(2))
}

fn go<D: Db>(db: &mut D) -> Option<u32> {
    let x = build(db);
    at(db, x, &[Dir::L, Dir::R]).unwrap()
}

fn lookup<D: Db>(db: &mut D, p: &Path) -> Result<Option<u32>, AuthError> {
    let x = build(db);
    at(db, x, p)
}

fn tape_of_go() -> Vec<String> {
    let mut p = Prover::new();
    go(&mut p);
    p.tape().to_vec()
}

#[test]
fn it_works() {
    let mut p = Prover::new();
    let result = go(&mut p);
    println!("{result:?}");

    let mut v = p.verify();
    let result2 = go(&mut v);
    println!("{result2:?}");
    assert_eq!(result, result2)
}

#[test]
fn lookup_left_right_is_two_on_both_sides() {
    let mut p = Prover::new();
    assert_eq!(go(&mut p), Some(2));
    let mut v = p.verify();
    assert_eq!(go(&mut v), Some(2));
}

#[test]
fn lookup_that_meets_a_leaf_early_is_absent_on_both_sides() {
    let mut p = Prover::new();
    assert_eq!(lookup(&mut p, &[Dir::R, Dir::L]), Ok(None));
    assert_eq!(p.tape().len(), 1);
    let mut v = p.verify();
    assert_eq!(lookup(&mut v, &[Dir::R, Dir::L]), Ok(None));
}

#[test]
fn lookup_of_the_right_child_agrees_on_both_sides() {
    let mut p = Prover::new();
    assert_eq!(lookup(&mut p, &[Dir::R]), Ok(Some(2)));
    let mut v = p.verify();
    assert_eq!(lookup(&mut v, &[Dir::R]), Ok(Some(2)));
}

#[test]
fn empty_path_opens_nothing() {
    let mut p = Prover::new();
    assert_eq!(lookup(&mut p, &[]), Ok(Some(0)));
    assert!(p.tape().is_empty());
    let empty: Vec<String> = Vec::new();
    let mut v = Verifier::new(&empty);
    assert_eq!(lookup(&mut v, &[]), Ok(Some(0)));
}

#[test]
fn prover_writes_one_entry_per_opening_in_call_order() {
    let tape = tape_of_go();
    assert_eq!(tape.len(), 2);
    let left = hex::encode(sha1_of(r#"{"Tip":1}"#));
    let right = hex::encode(sha1_of(r#"{"Tip":2}"#));
    assert_eq!(tape[0], format!(r#"{{"Bin":[0,"{left}","{right}"]}}"#));
    assert_eq!(tape[1], r#"{"Tip":2}"#);
}

fn sha1_of(text: &str) -> Vec<u8> {
    Sha1::digest(text.as_bytes()).to_vec()
}

#[test]
fn auth_leaves_the_tape_alone() {
    let mut p = Prover::new();
    build(&mut p);
    assert!(p.tape().is_empty());
    let tape = vec!["x".to_string()];
    let mut v = Verifier::new(&tape);
    build(&mut v);
    assert_eq!(v.next(), Some(&tape[0]));
}

#[test]
fn replay_hands_back_what_the_prover_wrote() {
    let mut p = Prover::new();
    let a = p.auth(1u32, "1".to_string());
    let b = p.auth(2u32, "2".to_string());
    assert!(matches!(p.unauth(b), Ok(Opened::Value(2))));
    assert!(matches!(p.unauth(a), Ok(Opened::Value(1))));
    assert_eq!(p.tape().to_vec(), vec!["2".to_string(), "1".to_string()]);

    let mut v = p.verify();
    let a = v.auth(1u32, "1".to_string());
    let b = v.auth(2u32, "2".to_string());
    match v.unauth(b) {
        Ok(Opened::Entry(s)) => assert_eq!(s, "2"),
        _ => panic!("the first entry was turned down"),
    }
    match v.unauth(a) {
        Ok(Opened::Entry(s)) => assert_eq!(s, "1"),
        _ => panic!("the second entry was turned down"),
    }
}

#[test]
fn replay_in_another_order_is_a_mismatch() {
    let mut p = Prover::new();
    let a = p.auth(1u32, "1".to_string());
    let b = p.auth(2u32, "2".to_string());
    p.unauth(a).ok();
    p.unauth(b).ok();
    let mut v = p.verify();
    let b = v.auth(2u32, "2".to_string());
    assert!(matches!(v.unauth(b), Err(AuthError::CommitmentMismatch)));
}

#[test]
fn flipping_any_byte_of_any_entry_is_a_mismatch() {
    let tape = tape_of_go();
    for entry in 0..tape.len() {
        for at_byte in 0..tape[entry].len() {
            let mut bytes = tape[entry].clone().into_bytes();
            bytes[at_byte] ^= 1;
            let mut forged = tape.clone();
            forged[entry] = String::from_utf8(bytes).unwrap();
            let mut v = Verifier::new(&forged);
            let x = build(&mut v);
            let got = at(&mut v, x, &[Dir::L, Dir::R]);
            assert_eq!(got, Err(AuthError::CommitmentMismatch));
        }
    }
}

#[test]
fn entries_before_a_forged_one_are_still_accepted() {
    let tape = vec!["1".to_string(), "3".to_string()];
    let mut v = Verifier::new(&tape);
    let a = v.auth(1u32, "1".to_string());
    let b = v.auth(2u32, "2".to_string());
    assert!(matches!(v.unauth(a), Ok(Opened::Entry(_))));
    assert!(matches!(v.unauth(b), Err(AuthError::CommitmentMismatch)));
}

#[test]
fn a_strict_prefix_runs_out_at_the_missing_entry() {
    let tape = tape_of_go();
    for kept in 0..tape.len() {
        let prefix = tape[..kept].to_vec();
        let mut v = Verifier::new(&prefix);
        let x = build(&mut v);
        let got = at(&mut v, x, &[Dir::L, Dir::R]);
        assert_eq!(got, Err(AuthError::TapeExhausted));
        let mut seen = Verifier::new(&prefix);
        let mut opened = 0;
        while seen.next().is_some() {
            opened += 1;
        }
        assert_eq!(opened, kept);
    }
}

#[test]
fn exhaustion_comes_after_the_last_entry_and_stays() {
    let tape = vec!["1".to_string()];
    let mut v = Verifier::new(&tape);
    let a = v.auth(1u32, "1".to_string());
    assert!(matches!(v.unauth(a), Ok(Opened::Entry(_))));
    let a = v.auth(1u32, "1".to_string());
    assert!(matches!(v.unauth(a), Err(AuthError::TapeExhausted)));
    let a = v.auth(1u32, "1".to_string());
    assert!(matches!(v.unauth(a), Err(AuthError::TapeExhausted)));
    assert_eq!(v.next(), None);
}

#[test]
fn a_mismatch_consumes_its_entry() {
    let tape = vec!["9".to_string(), "1".to_string()];
    let mut v = Verifier::new(&tape);
    let a = v.auth(1u32, "1".to_string());
    assert!(matches!(v.unauth(a), Err(AuthError::CommitmentMismatch)));
    let a = v.auth(1u32, "1".to_string());
    match v.unauth(a) {
        Ok(Opened::Entry(s)) => assert_eq!(s, "1"),
        _ => panic!("the second entry was turned down"),
    }
}

#[test]
fn a_used_verifier_does_not_start_over_but_a_fresh_one_does() {
    let mut p = Prover::new();
    go(&mut p);
    let mut v = p.verify();
    assert_eq!(go(&mut v), Some(2));
    let x = build(&mut v);
    assert_eq!(at(&mut v, x, &[Dir::L, Dir::R]), Err(AuthError::TapeExhausted));
    let mut again = p.verify();
    assert_eq!(go(&mut again), Some(2));
}

#[test]
fn prover_turns_down_a_proof_without_payload() {
    let mut p = Prover::new();
    let bare: Proof<u32> = Proof::from_hex("2aae6c35c94fcfb415dbe95f408b9ce91ee846ed").unwrap();
    assert!(matches!(p.unauth(bare), Err(AuthError::OpenOnUnauthenticatedProof)));
    assert!(p.tape().is_empty());
    let empty: Vec<String> = Vec::new();
    let mut v = Verifier::new(&empty);
    let from_verifier = v.auth(1u32, "1".to_string());
    assert!(matches!(p.unauth(from_verifier), Err(AuthError::OpenOnUnauthenticatedProof)));
    assert!(p.tape().is_empty());
}

#[test]
fn verifier_walks_its_tape_front_to_back() {
    let tape = vec!["a".to_string(), "b".to_string(), "c".to_string()];
    let mut v = Verifier::new(&tape);
    assert_eq!(v.next().map(|s| s.as_str()), Some("a"));
    assert_eq!(v.next().map(|s| s.as_str()), Some("b"));
    assert_eq!(v.next().map(|s| s.as_str()), Some("c"));
    assert_eq!(v.next(), None);
    assert_eq!(v.next(), None);
}

#[test]
fn verify_borrows_the_tape_written_so_far() {
    let mut p = Prover::new();
    let a = p.auth(5u32, "5".to_string());
    p.unauth(a).ok();
    let mut v = p.verify();
    assert_eq!(v.next().map(|s| s.as_str()), Some("5"));
    assert_eq!(v.next(), None);
    let q = p.clone();
    assert_eq!(q.tape().to_vec(), p.tape().to_vec());
}
