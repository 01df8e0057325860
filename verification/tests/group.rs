use zrx::group::{Group, Matches, Operator};

fn terms(indices: &[usize]) -> Group {
    Group::Terms(Matches { terms: indices.to_vec() })
}

#[test]
fn map_identity_keeps_group() {
    let group = Group::Operator(
        Operator::All,
        vec![terms(&[0, 1]), Group::Operator(Operator::Any, vec![terms(&[2]), terms(&[3])])],
    );
    let expected = Group::Operator(
        Operator::All,
        vec![terms(&[0, 1]), Group::Operator(Operator::Any, vec![terms(&[2]), terms(&[3])])],
    );
    assert_eq!(group.map(|g| g), expected);
}

#[test]
fn map_visits_in_post_order() {
    let group = Group::Operator(
        Operator::All,
        vec![
            terms(&[0]),
            Group::Operator(Operator::Not, vec![terms(&[1]), terms(&[2])]),
            terms(&[3]),
        ],
    );
    let mut seen: Vec<String> = Vec::new();
    let _ = group.map(|g| {
        let label = match &g {
            Group::Terms(m) => format!("t{}", m.terms[0]),
            Group::Operator(op, operands) => format!("{:?}/{}", op, operands.len()),
        };
        seen.push(label);
        g
    });
    assert_eq!(seen, vec!["t0", "t1", "t2", "Not/2", "t3", "All/3"]);
}

#[test]
fn map_rewrites_bottom_up() {
    // Replace every operator with a single operand by that operand.
    let group = Group::Operator(
        Operator::Any,
        vec![Group::Operator(Operator::All, vec![terms(&[4])]), terms(&[5])],
    );
    let mapped = group.map(|g| match g {
        Group::Operator(op, mut operands) => {
            if operands.len() == 1 {
                operands.pop().unwrap()
            } else {
                Group::Operator(op, operands)
            }
        }
        other => other,
    });
    assert_eq!(mapped, Group::Operator(Operator::Any, vec![terms(&[4]), terms(&[5])]));
}

#[test]
fn map_terms_only() {
    let mapped = terms(&[9]).map(|_| terms(&[1, 2]));
    assert_eq!(mapped, terms(&[1, 2]));
}

#[test]
fn map_empty_operator() {
    let mut calls = 0;
    let mapped = Group::Operator(Operator::Not, Vec::new()).map(|g| {
        calls += 1;
        g
    });
    assert_eq!(calls, 1);
    assert_eq!(mapped, Group::Operator(Operator::Not, Vec::new()));
}

#[test]
fn map_deep_nesting_does_not_overflow() {
    let mut group = terms(&[0]);
    for _ in 0..100_000 {
        group = Group::Operator(Operator::Not, vec![group]);
    }
    let mut calls = 0usize;
    let mapped = group.map(|g| {
        calls += 1;
        g
    });
    assert_eq!(calls, 100_001);
    // Take the result apart without recursion.
    let mut depth = 0usize;
    let mut current = mapped;
    loop {
        match current {
            Group::Operator(_, mut operands) => {
                depth += 1;
                current = operands.pop().unwrap();
            }
            Group::Terms(_) => break,
        }
    }
    assert_eq!(depth, 100_000);
}

#[test]
fn map_twice_equals_map_of_composition() {
    let build = || {
        Group::Operator(
            Operator::All,
            vec![terms(&[1]), Group::Operator(Operator::Not, vec![terms(&[2, 3])])],
        )
    };
    // A renaming function: shifts term indices and turns `All` into `Any`.
    let rename = |g: Group| match g {
        Group::Terms(m) => Group::Terms(Matches { terms: m.terms.iter().map(|t| t + 10).collect() }),
        Group::Operator(Operator::All, operands) => Group::Operator(Operator::Any, operands),
        other => other,
    };
    // A function that drops every `Not` node's operands.
    let prune = |g: Group| match g {
        Group::Operator(Operator::Not, _) => Group::Operator(Operator::Not, Vec::new()),
        other => other,
    };
    let twice = build().map(rename).map(prune);
    let once = build().map(|g| prune(rename(g)));
    assert_eq!(twice, once);
    assert_eq!(
        once,
        Group::Operator(Operator::Any, vec![terms(&[11]), Group::Operator(Operator::Not, Vec::new())])
    );
}
