use baml_ir::evaluate_type::suggest::capped_distance;
use baml_ir::graph::find_components;
use baml_ir::graph::reach_matrix;
use baml_ir::sorting::sort_by_name;

struct Generator(u64);

impl Generator {
    fn next(&mut self, bound: u64) -> u64 {
        self.0 = self.0.wrapping_mul(6364136223846793005).wrapping_add(1442695040888963407);
        (self.0 >> 33) % bound
    }

    fn word(&mut self, max_len: u64) -> String {
        let len = self.next(max_len + 1);
        (0..len).map(|_| (b'a' + self.next(3) as u8) as char).collect()
    }
}

fn plain_distance(a: &[char], b: &[char]) -> usize {
    let mut d = vec![vec![0usize; b.len() + 1]; a.len() + 1];
    for i in 0..=a.len() {
        d[i][0] = i;
    }
    for j in 0..=b.len() {
        d[0][j] = j;
    }
    for i in 1..=a.len() {
        for j in 1..=b.len() {
            let replace = d[i - 1][j - 1] + if a[i - 1] == b[j - 1] { 0 } else { 1 };
            d[i][j] = replace.min(d[i - 1][j] + 1).min(d[i][j - 1] + 1);
        }
    }
    d[a.len()][b.len()]
}

#[test]
fn distances_agree_with_the_full_table() {
    let mut g = Generator(7);
    for _ in 0..300 {
        let a: Vec<char> = g.word(30).chars().collect();
        let b: Vec<char> = g.word(30).chars().collect();
        let expected = plain_distance(&a, &b).min(21);
        assert_eq!(capped_distance(&a, &b), expected, "{:?} {:?}", a, b);
    }
}

#[test]
fn sorting_agrees_with_the_standard_stable_sort() {
    let mut g = Generator(11);
    for _ in 0..100 {
        let n = g.next(12);
        let words: Vec<String> = (0..n).map(|_| g.word(4)).collect();
        let mut expected = words.clone();
        expected.sort();
        assert_eq!(sort_by_name(words), expected);
    }
}

#[test]
fn reachability_agrees_with_the_transitive_closure() {
    let mut g = Generator(13);
    for _ in 0..60 {
        let n = g.next(7) as usize;
        let graph: Vec<Vec<bool>> =
            (0..n).map(|_| (0..n).map(|_| g.next(4) == 0).collect()).collect();
        let mut closure = graph.clone();
        for k in 0..n {
            for i in 0..n {
                for j in 0..n {
                    if closure[i][k] && closure[k][j] {
                        closure[i][j] = true;
                    }
                }
            }
        }
        assert_eq!(reach_matrix(&graph), closure);
        let mut expected: Vec<Vec<usize>> = Vec::new();
        for u in 0..n {
            if closure[u][u] && (0..u).all(|w| !(closure[u][w] && closure[w][u])) {
                expected.push((0..n).filter(|&v| closure[u][v] && closure[v][u]).collect());
            }
        }
        assert_eq!(find_components(&graph), expected);
    }
}
