use hnsw_rs::anndists::dist::DistCosine;
use hnsw_rs::hnsw::Hnsw;
use minimal_notes::distance::Distance;
use minimal_notes::embeddings::bucket_indices;
use minimal_notes::embeddings::EmbeddingError;
use minimal_notes::embeddings::EmbeddingManager;
use minimal_notes::embeddings::IndexConfig;
use minimal_notes::embeddings::IndexPlan;
use minimal_notes::embeddings::Neighbour;
use minimal_notes::embeddings::EF_SEARCH;
use minimal_notes::embeddings::EMBEDDING_DIMENSION;
use minimal_notes::note::Note;

fn note(id: &str, title: &str, content: &str) -> Note {
    Note { id: id.to_string(), title: title.to_string(), content: content.to_string() }
}

fn embed(text: &str) -> Vec<f32> {
    let mut embedding = vec![0.0f32; EMBEDDING_DIMENSION];
    for (i, bucket) in bucket_indices(text).iter().enumerate() {
        embedding[*bucket] += 1.0 / (i as f32 + 1.0);
    }
    let magnitude: f32 = embedding.iter().map(|x| x.powi(2)).sum::<f32>().sqrt();
    if magnitude > 0.0 {
        embedding.iter_mut().for_each(|x| *x /= magnitude);
    }
    embedding
}

struct Graph {
    graph: Option<Hnsw<'static, f32, DistCosine>>,
}

impl Graph {
    fn new() -> Graph {
        Graph { graph: None }
    }

    fn apply(&mut self, plan: &IndexPlan) {
        if let Some(config) = plan.allocate {
            self.graph = Some(Hnsw::new(
                config.max_nb_connection,
                config.max_elements,
                config.nb_layer,
                config.ef_construction,
                DistCosine,
            ));
        }
        let graph = self.graph.as_ref().unwrap();
        for insert in &plan.inserts {
            let embedding = embed(&insert.text);
            graph.insert((&embedding[..], insert.id));
        }
    }

    fn neighbours(&self, manager: &EmbeddingManager, query: &str, k: usize) -> Vec<Neighbour> {
        match manager.search_query(query, k) {
            None => Vec::new(),
            Some(q) => self
                .graph
                .as_ref()
                .unwrap()
                .search(&embed(&q.text), q.k, q.ef_search)
                .iter()
                .map(|n| Neighbour { id: n.d_id, distance: Distance::from_bits(n.distance.to_bits()) })
                .collect(),
        }
    }

    fn search(
        &self,
        manager: &EmbeddingManager,
        query: &str,
        k: usize,
        cutoff: Option<f32>,
    ) -> Vec<String> {
        let neighbours = self.neighbours(manager, query, k);
        manager.search(&neighbours, cutoff.map(|c| Distance::from_bits(c.to_bits()))).unwrap()
    }
}

fn at(id: usize, distance: f32) -> Neighbour {
    Neighbour { id, distance: Distance::from_bits(distance.to_bits()) }
}

#[test]
fn search_on_new_manager_is_empty() {
    let manager = EmbeddingManager::new();
    let graph = Graph::new();
    assert!(!manager.is_ready());
    assert!(manager.search_query("anything", 5).is_none());
    assert_eq!(graph.search(&manager, "anything", 5, None), Vec::<String>::new());
    assert_eq!(manager.search(&vec![at(0, 0.0), at(1, 0.5)], None).unwrap(), Vec::<String>::new());
}

#[test]
fn add_then_search_finds_the_note() {
    let mut manager = EmbeddingManager::new();
    let mut graph = Graph::new();
    let plan = manager.add_note(&note("a", "hello", "world")).unwrap();
    assert_eq!(plan.allocate, Some(IndexConfig::standard()));
    assert_eq!(plan.inserts.len(), 1);
    assert_eq!(plan.inserts[0].id, 0);
    assert_eq!(plan.inserts[0].text, "hello world");
    graph.apply(&plan);
    assert!(manager.is_ready());
    assert_eq!(graph.search(&manager, "hello world", 1, None), vec!["a".to_string()]);
}

#[test]
fn second_add_does_not_allocate_again() {
    let mut manager = EmbeddingManager::new();
    let first = manager.add_note(&note("a", "one", "x")).unwrap();
    let second = manager.add_note(&note("b", "two", "y")).unwrap();
    assert!(first.allocate.is_some());
    assert!(second.allocate.is_none());
    assert_eq!(second.inserts[0].id, 1);
    assert_eq!(second.inserts[0].text, "two y");
    assert_eq!(manager.next_id(), 2);
    assert_eq!(manager.internal_id(&"a".to_string()), Some(0));
    assert_eq!(manager.internal_id(&"b".to_string()), Some(1));
    assert_eq!(manager.external_id(1), Some("b".to_string()));
    assert_eq!(manager.external_id(2), None);
}

#[test]
fn remove_hides_the_note() {
    let mut manager = EmbeddingManager::new();
    let mut graph = Graph::new();
    let doc = note("a", "hello", "world");
    graph.apply(&manager.add_note(&doc).unwrap());
    graph.apply(&manager.add_note(&note("b", "other", "text")).unwrap());
    assert!(manager.remove_note(&doc).is_ok());
    let neighbours = graph.neighbours(&manager, "hello world", 5);
    assert!(neighbours.iter().any(|n| n.id == 0));
    let found = manager.search(&neighbours, None).unwrap();
    assert_eq!(found, vec!["b".to_string()]);
    assert_eq!(manager.internal_id(&"a".to_string()), None);
    assert_eq!(manager.external_id(0), None);
}

#[test]
fn remove_of_unknown_note_is_not_found() {
    let mut manager = EmbeddingManager::new();
    let doc = note("a", "hello", "world");
    assert_eq!(manager.remove_note(&doc), Err(EmbeddingError::NotFound));
    manager.add_note(&doc).unwrap();
    assert_eq!(manager.remove_note(&note("zzz", "", "")), Err(EmbeddingError::NotFound));
    assert_eq!(manager.remove_note(&doc), Ok(()));
    assert_eq!(manager.remove_note(&doc), Err(EmbeddingError::NotFound));
    assert_eq!(manager.next_id(), 1);
}

#[test]
fn update_replaces_the_note() {
    let mut manager = EmbeddingManager::new();
    let mut graph = Graph::new();
    graph.apply(&manager.add_note(&note("a", "t", "zzzz zzzz zzzz")).unwrap());
    graph.apply(&manager.add_note(&note("b", "t", "qqqq qqqq qqqq")).unwrap());
    let plan = manager.update_note(&note("a", "t", "kkkk kkkk kkkk")).unwrap();
    assert!(plan.allocate.is_none());
    assert_eq!(plan.inserts[0].id, 2);
    assert_eq!(plan.inserts[0].text, "t kkkk kkkk kkkk");
    graph.apply(&plan);
    assert_eq!(manager.internal_id(&"a".to_string()), Some(2));
    assert_eq!(manager.external_id(0), None);
    assert_eq!(manager.external_id(2), Some("a".to_string()));
    assert_eq!(graph.search(&manager, "t kkkk kkkk kkkk", 1, None), vec!["a".to_string()]);
    let neighbours = graph.neighbours(&manager, "t zzzz zzzz zzzz", 3);
    assert_eq!(neighbours[0].id, 0);
    let found = manager.search(&neighbours, None).unwrap();
    assert_eq!(found.iter().filter(|id| id.as_str() == "a").count(), 1);
    assert_eq!(found.len(), 2);
}

#[test]
fn update_of_unknown_note_adds_it() {
    let mut manager = EmbeddingManager::new();
    let plan = manager.update_note(&note("a", "hello", "world")).unwrap();
    assert_eq!(plan.allocate, Some(IndexConfig::standard()));
    assert_eq!(plan.inserts[0].id, 0);
    assert_eq!(manager.internal_id(&"a".to_string()), Some(0));
}

#[test]
fn adding_twice_leaves_two_shown_ids() {
    let mut manager = EmbeddingManager::new();
    let doc = note("a", "hello", "world");
    manager.add_note(&doc).unwrap();
    manager.add_note(&doc).unwrap();
    assert_eq!(manager.internal_id(&"a".to_string()), Some(1));
    assert_eq!(manager.external_id(0), Some("a".to_string()));
    assert_eq!(manager.external_id(1), Some("a".to_string()));
    let found = manager.search(&vec![at(0, 0.0), at(1, 0.0)], None).unwrap();
    assert_eq!(found, vec!["a".to_string(), "a".to_string()]);
    assert_eq!(manager.remove_note(&doc), Ok(()));
    assert_eq!(manager.search(&vec![at(0, 0.0), at(1, 0.0)], None).unwrap(), vec!["a".to_string()]);
    assert_eq!(manager.remove_note(&doc), Err(EmbeddingError::NotFound));
}

#[test]
fn rebuild_hands_out_ids_from_zero() {
    let mut manager = EmbeddingManager::new();
    let mut graph = Graph::new();
    let docs = vec![
        note("a", "alpha", "one"),
        note("b", "beta", "two"),
        note("c", "gamma", "three"),
        note("d", "delta", "four"),
        note("e", "epsilon", "five"),
    ];
    for doc in &docs {
        graph.apply(&manager.add_note(doc).unwrap());
    }
    manager.remove_note(&docs[1]).unwrap();
    manager.remove_note(&docs[3]).unwrap();
    assert_eq!(manager.next_id(), 5);
    let remaining = vec![docs[0].clone(), docs[2].clone(), docs[4].clone()];
    let plan = manager.rebuild_index(&remaining).unwrap();
    assert_eq!(plan.allocate, Some(IndexConfig::standard()));
    let ids: Vec<usize> = plan.inserts.iter().map(|i| i.id).collect();
    assert_eq!(ids, vec![0, 1, 2]);
    assert_eq!(plan.inserts[1].text, "gamma three");
    assert_eq!(manager.next_id(), 3);
    assert_eq!(manager.external_id(0), Some("a".to_string()));
    assert_eq!(manager.external_id(1), Some("c".to_string()));
    assert_eq!(manager.external_id(2), Some("e".to_string()));
    assert_eq!(manager.external_id(3), None);
    assert_eq!(manager.internal_id(&"b".to_string()), None);
    assert_eq!(manager.internal_id(&"e".to_string()), Some(2));
    graph.apply(&plan);
    assert_eq!(graph.search(&manager, "gamma three", 1, None), vec!["c".to_string()]);
    let all = graph.neighbours(&manager, "gamma three", 10);
    assert_eq!(all.len(), 3);
}

#[test]
fn rebuild_with_no_notes_is_ready_and_empty() {
    let mut manager = EmbeddingManager::new();
    manager.add_note(&note("a", "x", "y")).unwrap();
    let plan = manager.rebuild_index(&[]).unwrap();
    assert_eq!(plan.allocate, Some(IndexConfig::standard()));
    assert!(plan.inserts.is_empty());
    assert!(manager.is_ready());
    assert_eq!(manager.next_id(), 0);
    assert_eq!(manager.internal_id(&"a".to_string()), None);
    let q = manager.search_query("x y", 4).unwrap();
    assert_eq!(q.text, "x y");
    assert_eq!(q.k, 4);
    assert_eq!(q.ef_search, EF_SEARCH);
    assert_eq!(q.ef_search, 50);
}

#[test]
fn rebuild_with_a_repeated_id_keeps_the_last_as_current() {
    let mut manager = EmbeddingManager::new();
    let docs = vec![note("a", "1", ""), note("b", "2", ""), note("a", "3", "")];
    let plan = manager.rebuild_index(&docs).unwrap();
    assert_eq!(plan.inserts.len(), 3);
    assert_eq!(manager.internal_id(&"a".to_string()), Some(2));
    assert_eq!(manager.external_id(0), Some("a".to_string()));
}

#[test]
fn initialize_returns_the_fixed_parameters() {
    let mut manager = EmbeddingManager::new();
    let config = manager.initialize().unwrap();
    assert_eq!(config.max_elements, 10000);
    assert_eq!(config.max_nb_connection, 16);
    assert_eq!(config.nb_layer, 16);
    assert_eq!(config.ef_construction, 200);
    assert!(manager.is_ready());
    assert_eq!(manager.next_id(), 0);
    let plan = manager.add_note(&note("a", "x", "y")).unwrap();
    assert!(plan.allocate.is_none());
}

#[test]
fn cutoff_skips_only_strictly_greater_distances() {
    let mut manager = EmbeddingManager::new();
    for id in ["a", "b", "c", "d"] {
        manager.add_note(&note(id, id, "")).unwrap();
    }
    let neighbours = vec![at(2, 0.1), at(0, 0.25), at(3, 0.25), at(1, 0.7)];
    let cut = |c: f32| Some(Distance::from_bits(c.to_bits()));
    assert_eq!(manager.search(&neighbours, cut(0.25)).unwrap(), vec!["c", "a", "d"]);
    assert_eq!(manager.search(&neighbours, cut(0.2)).unwrap(), vec!["c"]);
    assert_eq!(manager.search(&neighbours, cut(0.05)).unwrap(), Vec::<String>::new());
    assert_eq!(manager.search(&neighbours, cut(0.7)).unwrap(), vec!["c", "a", "d", "b"]);
    assert_eq!(manager.search(&neighbours, None).unwrap(), vec!["c", "a", "d", "b"]);
    assert_eq!(manager.search(&neighbours, cut(f32::NAN)).unwrap(), vec!["c", "a", "d", "b"]);
    assert_eq!(manager.search(&vec![at(0, f32::NAN)], cut(0.0)).unwrap(), vec!["a"]);
}

#[test]
fn raising_the_cutoff_only_adds_results() {
    let mut manager = EmbeddingManager::new();
    let mut graph = Graph::new();
    let docs = vec![
        note("a", "rust", "verified systems code"),
        note("b", "cooking", "pasta with tomato sauce"),
        note("c", "rust", "systems code"),
        note("d", "zzz", "qqqqqq"),
    ];
    for doc in &docs {
        graph.apply(&manager.add_note(doc).unwrap());
    }
    manager.remove_note(&docs[3]).unwrap();
    let neighbours = graph.neighbours(&manager, "rust systems code", 4);
    assert_eq!(neighbours.len(), 4);
    let cutoffs = [0.0f32, 0.01, 0.05, 0.1, 0.2, 0.4, 0.8, 1.0, 2.0];
    let mut previous: Vec<String> = Vec::new();
    for c in cutoffs {
        let found = manager.search(&neighbours, Some(Distance::from_bits(c.to_bits()))).unwrap();
        assert!(previous.iter().all(|id| found.contains(id)));
        assert!(found.len() <= 3);
        for id in &found {
            let internal = manager.internal_id(id).unwrap();
            let n = neighbours.iter().find(|n| n.id == internal).unwrap();
            assert!(f32::from_bits(n.distance.bits) <= c);
        }
        previous = found;
    }
    assert_eq!(previous.len(), 3);
}

#[test]
fn filtered_neighbours_are_not_replaced() {
    let mut manager = EmbeddingManager::new();
    let mut graph = Graph::new();
    let a = note("a", "hello", "world");
    graph.apply(&manager.add_note(&a).unwrap());
    graph.apply(&manager.add_note(&note("b", "something", "else entirely")).unwrap());
    manager.remove_note(&a).unwrap();
    assert_eq!(graph.search(&manager, "hello world", 1, None), Vec::<String>::new());
    assert_eq!(graph.search(&manager, "hello world", 2, None), vec!["b".to_string()]);
}

#[test]
fn distances_compare_like_numbers() {
    let values = [
        0.0f32,
        -0.0,
        1.0,
        -1.0,
        0.5,
        0.25,
        1.0e-40,
        -1.0e-40,
        3.0e38,
        -3.0e38,
        f32::INFINITY,
        f32::NEG_INFINITY,
        f32::NAN,
        -f32::NAN,
        f32::MIN_POSITIVE,
        f32::EPSILON,
    ];
    for a in values {
        let da = Distance::from_bits(a.to_bits());
        assert_eq!(da.not_a_number(), a.is_nan());
        for b in values {
            let db = Distance::from_bits(b.to_bits());
            assert_eq!(da.exceeds(&db), a > b);
        }
    }
    assert_eq!(Distance::from_bits(1.0f32.to_bits()).position(), 0x3f80_0000);
    assert_eq!(Distance::from_bits((-1.0f32).to_bits()).position(), -0x3f80_0000);
    assert_eq!(Distance::from_bits((-0.0f32).to_bits()).position(), 0);
}

#[test]
fn buckets_are_code_points_modulo_the_dimension() {
    assert_eq!(EMBEDDING_DIMENSION, 128);
    assert_eq!(bucket_indices(""), Vec::<usize>::new());
    assert_eq!(bucket_indices("aA z"), vec![97, 65, 32, 122]);
    assert_eq!(bucket_indices("\u{e9}\u{4e16}\u{1f600}"), vec![0xe9 % 128, 0x4e16 % 128, 0x1f600 % 128]);
}

#[test]
fn embedding_of_empty_text_is_all_zero() {
    let embedding = embed("");
    assert_eq!(embedding.len(), 128);
    assert!(embedding.iter().all(|x| *x == 0.0));
}

#[test]
fn embedding_has_unit_norm_and_weights_by_position() {
    for text in ["a", "hello world", "aaaa", "\u{4e16}\u{754c}"] {
        let embedding = embed(text);
        let norm: f32 = embedding.iter().map(|x| x * x).sum::<f32>().sqrt();
        assert!((norm - 1.0).abs() < 1.0e-5);
        assert_eq!(embed(text), embedding);
    }
    let ab = embed("ab");
    let expected = (1.0f32 + 0.25).sqrt();
    assert!((ab[97] - 1.0 / expected).abs() < 1.0e-6);
    assert!((ab[98] - 0.5 / expected).abs() < 1.0e-6);
}

#[test]
fn error_message_reads_item_not_found() {
    assert_eq!(EmbeddingError::NotFound.message(), "Item not found");
}

#[test]
fn indexed_text_joins_title_and_content() {
    assert_eq!(note("a", "hello", "world").indexed_text(), "hello world");
    assert_eq!(note("a", "", "").indexed_text(), " ");
}
