use graft::CachedContext;
use graft::Context;
use graft::DirContext;
use graft::NotFound;
use graft::StaticContext;

struct Counting {
    asked: Vec<String>,
}

impl Context for Counting {
    fn lookup(&mut self, key: &str) -> Result<String, NotFound> {
        self.asked.push(key.to_string());
        if key.starts_with("has") {
            Ok(format!("text of {} #{}", key, self.asked.len()))
        } else {
            Err(NotFound)
        }
    }
}

#[test]
fn a_static_store_answers_what_it_was_given() {
    let mut ctx = StaticContext::new("a.txt", "alpha").with("b.txt", "beta");
    assert_eq!(ctx.lookup("a.txt"), Ok("alpha".to_string()));
    assert_eq!(ctx.lookup("b.txt"), Ok("beta".to_string()));
    assert_eq!(ctx.lookup("c.txt"), Err(NotFound));
    assert_eq!(ctx.lookup("a"), Err(NotFound));
    assert_eq!(ctx.lookup("a.txt"), Ok("alpha".to_string()));
}

#[test]
fn a_later_text_replaces_an_earlier_one() {
    let mut ctx = StaticContext::new("k", "one").with("other", "x").with("k", "two");
    assert_eq!(ctx.lookup("k"), Ok("two".to_string()));
    assert_eq!(ctx.lookup("other"), Ok("x".to_string()));
}

#[test]
fn a_static_store_takes_the_shared_indentation_away() {
    let mut ctx = StaticContext::new("k", "\n    a:\n      b: 1\n    c: 2\n");
    assert_eq!(ctx.lookup("k"), Ok("\na:\n  b: 1\nc: 2\n".to_string()));
    let mut ctx = ctx.with("j", "  x\n  y");
    assert_eq!(ctx.lookup("j"), Ok("x\ny".to_string()));
}

#[test]
fn an_empty_key_is_a_key() {
    let mut ctx = StaticContext::new("", "");
    assert_eq!(ctx.lookup(""), Ok("".to_string()));
    assert_eq!(ctx.lookup("x"), Err(NotFound));
}

#[test]
fn a_directory_store_keeps_its_directory() {
    let dir = std::path::PathBuf::from("some/dir");
    let ctx = DirContext::new(dir.clone());
    assert_eq!(ctx.dir, dir);
}

#[test]
fn a_cache_asks_the_inner_store_once_for_a_hit() {
    let mut ctx = CachedContext::new(Box::new(Counting { asked: vec![] }));
    let first = ctx.lookup("has.txt");
    assert_eq!(first, Ok("text of has.txt #1".to_string()));
    assert_eq!(ctx.lookup("has.txt"), first);
    assert_eq!(ctx.lookup("has.txt"), first);
    assert_eq!(ctx.lookup("has.json"), Ok("text of has.json #2".to_string()));
    assert_eq!(ctx.lookup("has.txt"), first);
}

#[test]
fn a_cache_remembers_a_miss() {
    let mut ctx = CachedContext::new(Box::new(Counting { asked: vec![] }));
    assert_eq!(ctx.lookup("none"), Err(NotFound));
    assert_eq!(ctx.lookup("none"), Err(NotFound));
    assert_eq!(ctx.lookup("has"), Ok("text of has #2".to_string()));
    assert_eq!(ctx.lookup("none"), Err(NotFound));
    assert_eq!(ctx.lookup("has"), Ok("text of has #2".to_string()));
    assert_eq!(ctx.lookup("other"), Err(NotFound));
    assert_eq!(ctx.lookup("has more"), Ok("text of has more #4".to_string()));
}

#[test]
fn a_cache_over_a_static_store_answers_as_the_store() {
    let inner = StaticContext::new("foo.json", "{}").with("title.txt", "this is the title");
    let mut ctx = CachedContext::new(Box::new(inner));
    for _ in 0..3 {
        assert_eq!(ctx.lookup("foo.json"), Ok("{}".to_string()));
        assert_eq!(ctx.lookup("title.txt"), Ok("this is the title".to_string()));
        assert_eq!(ctx.lookup("foo.yml"), Err(NotFound));
    }
}
