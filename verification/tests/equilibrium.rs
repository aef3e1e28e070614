//! End-to-end tests: exploration, sequence-form construction, numeric
//! solving through good_lp's microlp backend, extraction, and replay.

use bluff_tree::common::{Driver, Fault, Game};
use bluff_tree::exact::{build_lps, extract_solution, AuxNode, LpPair};
use bluff_tree::explorer::{expand, expand_full, make_node};
use bluff_tree::lp::{LpProblem, Rel};
use bluff_tree::rat::Rat;
use bluff_tree::rps::RPS;
use bluff_tree::tic_tac_toe::TicTacToe;
use bluff_tree::tree::{clone_tree, NodeType, Tree, TreeGame};

use good_lp::{variable, ProblemVariables, Expression, Solution, SolverModel};

fn rat_f(r: &Rat) -> f64 {
    r.num as f64 / r.den as f64
}

fn rat_of(x: f64) -> Rat {
    let den: i64 = 1 << 20;
    let scaled = x * den as f64;
    let num = if scaled.is_finite() && scaled.abs() < i64::MAX as f64 {
        scaled.round() as i64
    } else {
        0
    };
    Rat::new(num, den)
}

/// Maximizes one problem description with the numeric backend and hands
/// the assignment back as rationals, plus the objective value reached.
fn solve_lp(lp: &LpProblem) -> (Vec<Rat>, f64) {
    let mut problem = ProblemVariables::new();
    let n = lp.nonneg.len();
    let mut vars = Vec::new();
    for i in 0..n {
        let def = if lp.nonneg[i] { variable().min(0.0) } else { variable() };
        vars.push(problem.add(def));
    }
    let mut goal = Expression::with_capacity(lp.objective.len());
    for (c, v) in &lp.objective {
        goal += rat_f(c) * vars[*v];
    }
    let mut model = problem.maximise(goal.clone()).using(good_lp::microlp);
    for con in &lp.constraints {
        let mut expr = Expression::with_capacity(con.terms.len());
        for (c, v) in &con.terms {
            expr += rat_f(c) * vars[*v];
        }
        let built = match con.rel {
            Rel::Le => expr.leq(rat_f(&con.rhs)),
            Rel::Eq => expr.eq(rat_f(&con.rhs)),
            Rel::Ge => expr.geq(rat_f(&con.rhs)),
        };
        model = model.with(built);
    }
    let solution = model.solve().expect("the equilibrium system should be solvable");
    let mut out = Vec::new();
    let mut objective = 0.0;
    for i in 0..n {
        out.push(rat_of(solution.value(vars[i])));
    }
    for (c, v) in &lp.objective {
        objective += rat_f(c) * solution.value(vars[*v]);
    }
    (out, objective)
}

/// Explores a game to exhaustion, solves both programs, writes the
/// equilibrium back, and reports both objective values.
fn solve_game<G: Game>(game: G) -> (Tree<G>, LpPair, Vec<Rat>, Vec<Rat>, f64, f64) {
    let mut tree = make_node(game, Vec::new()).expect("exploration should capture the root");
    expand_full(&mut tree).expect("a small game should expand fully");
    let pair = build_lps(&tree).expect("construction should succeed");
    let (sol1, obj1) = solve_lp(&pair.lp1);
    let (sol2, obj2) = solve_lp(&pair.lp2);
    extract_solution(&mut tree, &pair, &sol1, &sol2).expect("extraction should succeed");
    (tree, pair, sol1, sol2, obj1, obj2)
}

#[test]
fn rat_arithmetic_is_exact() {
    let third = Rat::new(1, 3);
    let sixth = Rat::new(1, 6);
    let sum = third.add(sixth).unwrap();
    // 1/3 + 1/6 == 1/2, by cross multiplication
    assert_eq!(sum.num as i128 * 2, sum.den as i128);
    let half = Rat::new(1, 2);
    let prod = half.mul(half).unwrap();
    assert_eq!(prod.num as i128 * 4, prod.den as i128);
    let q = Rat::new(3, 4).div(Rat::new(-3, 2)).unwrap();
    // (3/4) / (-3/2) == -1/2
    assert_eq!(q.num as i128 * 2, -(q.den as i128));
    assert!(Rat::new(1, 3).lt(Rat::new(1, 2)));
    assert!(Rat::new(1, 2).le(Rat::new(1, 2)));
}

#[test]
fn rat_overflow_reports_none() {
    let big = Rat::new(i64::MAX, 3);
    assert!(big.mul(big).is_none());
    assert!(big.add(Rat::new(1, 7)).is_none());
}

#[test]
fn explorer_records_the_first_open_request() {
    let root = make_node(RPS::new(), Vec::new()).unwrap();
    match &root.node_type {
        NodeType::Player1(options) => assert_eq!(options.len(), 3),
        _ => panic!("the first request of the matchup is player one's choice"),
    }
    assert_eq!(root.children.len(), 3);
    assert!(root.children.iter().all(|c| c.is_none()));
}

#[test]
fn out_of_range_scripted_answers_are_rejected() {
    let err = make_node(RPS::new(), vec![5]).unwrap_err();
    assert_eq!(err, Fault::AnswerRange);
}

#[test]
fn expanding_a_filled_slot_is_rejected() {
    let mut root = make_node(RPS::new(), Vec::new()).unwrap();
    expand(&mut root, 0).unwrap();
    let again = expand(&mut root, 0).unwrap_err();
    assert_eq!(again, Fault::AlreadyExpanded);
    let oob = expand(&mut root, 7).unwrap_err();
    assert_eq!(oob, Fault::MissingChild);
}

#[test]
fn single_terminal_solves_to_its_payoff() {
    for payoff in [5i64, -2i64] {
        let (tree, pair, _s1, _s2, obj1, obj2) = solve_game(InstantGame { payoff });
        // the programs hold nothing beyond the two root variables and the goal
        assert_eq!(pair.lp1.nonneg.len(), 3);
        assert_eq!(pair.lp2.nonneg.len(), 3);
        let v = tree.value.as_ref().expect("the terminal root must be labeled");
        assert_eq!((v.num, v.den), (payoff, 1));
        assert!((obj1 - payoff as f64).abs() < 1e-6);
        assert!((obj2 + payoff as f64).abs() < 1e-6);
    }
}

#[test]
fn rps_solves_to_uniform_equilibrium() {
    let (tree, _pair, _s1, _s2, _o1, _o2) = solve_game(RPS::new());
    let v = tree.value.as_ref().unwrap();
    assert!(rat_f(v).abs() < 1e-4);
    let probs = tree.prob.as_ref().expect("the root decision must carry a distribution");
    assert_eq!(probs.len(), 3);
    for p in probs {
        assert!((rat_f(p) - 1.0 / 3.0).abs() < 1e-4);
    }
    // player two's conditional play is uniform as well
    let child = tree.children[0].as_ref().unwrap();
    let probs2 = child.prob.as_ref().unwrap();
    assert_eq!(probs2.len(), 3);
    for p in probs2 {
        assert!((rat_f(p) - 1.0 / 3.0).abs() < 1e-4);
    }
}

#[test]
fn lp_goal_values_are_negatives() {
    let (_t, _pair, _s1, _s2, obj1, obj2) = solve_game(RPS::new());
    assert!((obj1 + obj2).abs() < 1e-6);
}

fn check_flow(aux: &AuxNode, sol: &Vec<Rat>) {
    for iset in &aux.infosets {
        let parent = rat_f(&sol[aux.seq_var]);
        let total: f64 = iset.children.iter().map(|c| rat_f(&sol[c.seq_var])).sum();
        assert!((total - parent).abs() < 1e-6);
        for c in &iset.children {
            check_flow(c, sol);
        }
    }
}

#[test]
fn aux_flow_conservation_holds_in_solution() {
    let (_t, pair, sol1, sol2, _o1, _o2) = solve_game(RPS::new());
    check_flow(&pair.aux1, &sol1);
    check_flow(&pair.aux2, &sol2);
}

fn check_prob_sums<G>(node: &Tree<G>) {
    let is_decision = matches!(
        node.node_type,
        NodeType::Player1(_) | NodeType::Player2(_)
    );
    if is_decision {
        if let Some(probs) = &node.prob {
            let total: f64 = probs.iter().map(rat_f).sum();
            assert!((total - 1.0).abs() < 1e-6);
        }
    }
    for child in node.children.iter().flatten() {
        check_prob_sums(child);
    }
}

#[test]
fn decision_reach_distributions_sum_to_one() {
    let (tree, _pair, _s1, _s2, _o1, _o2) = solve_game(RPS::new());
    check_prob_sums(&tree);
    let (tree2, _p, _a, _b, _c, _d) = solve_game(midgame());
    check_prob_sums(&tree2);
}

#[test]
fn resolving_yields_same_root_value() {
    let mut tree = make_node(RPS::new(), Vec::new()).unwrap();
    expand_full(&mut tree).unwrap();
    let pair = build_lps(&tree).expect("construction should succeed");
    let (sol1, _) = solve_lp(&pair.lp1);
    let (sol2, _) = solve_lp(&pair.lp2);
    extract_solution(&mut tree, &pair, &sol1, &sol2).unwrap();
    let first = rat_f(tree.value.as_ref().unwrap());
    let pair2 = build_lps(&tree).expect("construction should succeed twice");
    let (sol1b, _) = solve_lp(&pair2.lp1);
    let (sol2b, _) = solve_lp(&pair2.lp2);
    extract_solution(&mut tree, &pair2, &sol1b, &sol2b).unwrap();
    let second = rat_f(tree.value.as_ref().unwrap());
    assert!((first - second).abs() < 1e-6);
}

/// A drawn position: player one owns the first two cells of the top row,
/// player two the third and the center; player one is to move and best
/// play by both sides ends level.
fn midgame() -> TicTacToe {
    TicTacToe { board: vec![1, 1, -1, 0, -1, 0, 0, 0, 0], curr_player: 1 }
}

#[test]
fn tic_tac_toe_solves_to_a_draw() {
    let (tree, _pair, _s1, _s2, obj1, _o2) = solve_game(midgame());
    let v = tree.value.as_ref().expect("the solved root must carry a value");
    assert!(rat_f(v).abs() < 1e-4);
    assert!(obj1.abs() < 1e-4);
}

#[test]
fn tic_tac_toe_moves_and_wins() {
    let mut g = TicTacToe::new();
    assert!(g.play(pick(0, 0)).is_none());
    assert_eq!(g.curr_player, -1);
    assert!(g.play(pick(1, 0)).is_none());
    assert!(g.play(pick(0, 1)).is_none());
    assert!(g.play(pick(1, 1)).is_none());
    // completing the top row wins for player one
    assert_eq!(g.play(pick(0, 2)), Some(1));
    // claiming an occupied cell forfeits at once
    let mut h = TicTacToe::new();
    assert!(h.play(pick(2, 2)).is_none());
    assert_eq!(h.play(pick(2, 2)), Some(1));
}

fn pick(x: usize, y: usize) -> bluff_tree::tic_tac_toe::Choice {
    bluff_tree::tic_tac_toe::Choice { x, y }
}

#[test]
fn empty_cells_lists_free_cells_in_order() {
    let g = midgame();
    let cells = g.empty_cells();
    let keys: Vec<usize> = cells.iter().map(|c| 3 * c.x + c.y).collect();
    assert_eq!(keys, vec![3, 5, 6, 7, 8]);
}

#[test]
fn is_win_checks_uniform_taken_lines() {
    assert_eq!(TicTacToe::is_win(&vec![1, 1, 1]), Some(1));
    assert_eq!(TicTacToe::is_win(&vec![-1, -1, -1]), Some(-1));
    assert_eq!(TicTacToe::is_win(&vec![0, 0, 0]), None);
    assert_eq!(TicTacToe::is_win(&vec![1, -1, 1]), None);
}

#[test]
fn board_string_draws_the_grid() {
    let g = midgame();
    let s = g.board_string();
    assert_eq!(s, "X|X|O\n-+-+-\n |O| \n-+-+-\n | | ");
}

#[test]
fn rps_payoff_matches_the_cyclic_rule() {
    // replay the matchup with fixed choices and read the recorded payoff
    for (p1, p2, expected) in [
        (0usize, 0usize, 0i64),
        (0, 1, -1),
        (0, 2, 1),
        (1, 0, 1),
        (2, 0, -1),
    ] {
        let node = make_node(RPS::new(), vec![p1, p2]).unwrap();
        match &node.node_type {
            NodeType::End(v) => {
                assert_eq!((v.num, v.den), (expected, 1));
            },
            _ => panic!("two scripted answers must reach the end of the matchup"),
        }
    }
}

struct InstantGame {
    payoff: i64,
}

impl Game for InstantGame {
    fn step(&mut self, driver: &mut Driver) -> Result<bool, Fault> {
        match driver.request(NodeType::End(Rat::from_int(self.payoff))) {
            Ok(_) => Ok(false),
            Err(f) => Err(f),
        }
    }

    fn dup(&self) -> Self {
        InstantGame { payoff: self.payoff }
    }
}

struct Lcg {
    state: u64,
}

impl Lcg {
    fn next_unit(&mut self) -> f64 {
        self.state = self
            .state
            .wrapping_mul(6364136223846793005)
            .wrapping_add(1442695040888963407);
        (self.state >> 11) as f64 / (1u64 << 53) as f64
    }
}

/// Replays the solved tree once through the tree-driven game, sampling
/// every decision from the stored reach distributions, and reports the
/// terminal payoff.
fn replay_once<G: Game>(tree: &Tree<G>, rng: &mut Lcg) -> f64 {
    let mut answers: Vec<usize> = Vec::new();
    loop {
        let mut game = TreeGame::new(clone_tree(tree));
        let mut driver = Driver::new(answers.clone());
        loop {
            match game.step(&mut driver).expect("replay should not fault") {
                true => continue,
                false => break,
            }
        }
        // find the node the replay stopped at, to sample its distribution
        let mut node = tree;
        for &i in &answers {
            node = node.children[i].as_ref().expect("replay path exists");
        }
        match driver.pending.expect("a stopped replay leaves a request") {
            NodeType::End(v) => {
                return rat_f(&v);
            },
            NodeType::Message1(_) | NodeType::Message2(_) => {
                answers.push(0);
            },
            NodeType::Player1(_) | NodeType::Player2(_) | NodeType::Random(_, _) => {
                let probs = node.prob.as_ref().expect("reached decisions are labeled");
                let mut x = rng.next_unit();
                let mut chosen = probs.len() - 1;
                for (i, p) in probs.iter().enumerate() {
                    x -= rat_f(p);
                    if x < 0.0 {
                        chosen = i;
                        break;
                    }
                }
                answers.push(chosen);
            },
        }
    }
}

#[test]
fn replay_average_converges_to_root_value() {
    let (tree, _pair, _s1, _s2, _o1, _o2) = solve_game(RPS::new());
    let root_value = rat_f(tree.value.as_ref().unwrap());
    let mut rng = Lcg { state: 0x853c49e6748fea9b };
    let trials = 4000;
    let mut total = 0.0;
    for _ in 0..trials {
        total += replay_once(&tree, &mut rng);
    }
    let average = total / trials as f64;
    assert!((average - root_value).abs() < 0.05);
}
