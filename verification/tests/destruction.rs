use myvec::vec::Vec;
use std::cell::RefCell;
use std::rc::Rc;

/// An element that writes its name into a shared log when it is destroyed.
struct Noted {
    name: char,
    log: Rc<RefCell<std::vec::Vec<char>>>,
}

impl Drop for Noted {
    fn drop(&mut self) {
        self.log.borrow_mut().push(self.name);
    }
}

fn noted_abc(log: &Rc<RefCell<std::vec::Vec<char>>>) -> Vec<Noted> {
    let mut v = Vec::new();
    for name in ['a', 'b', 'c'] {
        v.push(Noted { name, log: log.clone() });
    }
    v
}

#[test]
fn unfinished_drain_destroys_each_element_once() {
    let log = Rc::new(RefCell::new(std::vec::Vec::new()));
    let mut v = noted_abc(&log);
    {
        let mut d = v.drain();
        let first = d.next();
        assert_eq!(first.map(|noted| noted.name), Some('a'));
        assert_eq!(log.borrow().len(), 1);
    }
    assert_eq!(v.len(), 0);
    assert_eq!(log.borrow().len(), 3);
    assert_eq!(*log.borrow(), vec!['a', 'b', 'c']);
    drop(v);
    assert_eq!(log.borrow().len(), 3);
}

#[test]
fn finished_drain_destroys_nothing_more() {
    let log = Rc::new(RefCell::new(std::vec::Vec::new()));
    let mut v = noted_abc(&log);
    {
        let mut d = v.drain();
        while let Some(noted) = d.next_back() {
            drop(noted);
        }
        assert_eq!(*log.borrow(), vec!['c', 'b', 'a']);
    }
    assert_eq!(log.borrow().len(), 3);
    v.push(Noted { name: 'd', log: log.clone() });
    assert_eq!(log.borrow().len(), 3);
    drop(v);
    assert_eq!(*log.borrow(), vec!['c', 'b', 'a', 'd']);
}

#[test]
fn array_destroys_its_elements_last_first() {
    let log = Rc::new(RefCell::new(std::vec::Vec::new()));
    let v = noted_abc(&log);
    assert_eq!(log.borrow().len(), 0);
    drop(v);
    assert_eq!(*log.borrow(), vec!['c', 'b', 'a']);
}

#[test]
fn popped_element_is_the_callers() {
    let log = Rc::new(RefCell::new(std::vec::Vec::new()));
    let mut v = noted_abc(&log);
    let last = v.pop();
    assert_eq!(log.borrow().len(), 0);
    drop(v);
    assert_eq!(*log.borrow(), vec!['b', 'a']);
    drop(last);
    assert_eq!(*log.borrow(), vec!['b', 'a', 'c']);
}

#[test]
fn removed_and_inserted_elements_are_destroyed_once() {
    let log = Rc::new(RefCell::new(std::vec::Vec::new()));
    let mut v = noted_abc(&log);
    v.insert(1, Noted { name: 'x', log: log.clone() });
    assert_eq!(log.borrow().len(), 0);
    let gone = v.remove(0);
    assert_eq!(log.borrow().len(), 0);
    drop(gone);
    assert_eq!(*log.borrow(), vec!['a']);
    drop(v);
    assert_eq!(*log.borrow(), vec!['a', 'c', 'b', 'x']);
}

#[test]
fn unfinished_consuming_destroys_the_rest() {
    let log = Rc::new(RefCell::new(std::vec::Vec::new()));
    let v = noted_abc(&log);
    let mut it = v.into_iter();
    assert_eq!(log.borrow().len(), 0);
    let last = it.next_back();
    assert_eq!(last.map(|noted| noted.name), Some('c'));
    assert_eq!(*log.borrow(), vec!['c']);
    drop(it);
    assert_eq!(*log.borrow(), vec!['c', 'a', 'b']);
}

#[test]
fn finished_consuming_destroys_nothing_more() {
    let log = Rc::new(RefCell::new(std::vec::Vec::new()));
    let mut it = noted_abc(&log).into_iter();
    let a = it.next();
    let b = it.next();
    let c = it.next();
    assert!(it.next().is_none());
    drop(it);
    assert_eq!(log.borrow().len(), 0);
    drop(b);
    drop(a);
    drop(c);
    assert_eq!(*log.borrow(), vec!['b', 'a', 'c']);
}

#[test]
fn growth_destroys_nothing() {
    let log = Rc::new(RefCell::new(std::vec::Vec::new()));
    let mut v = Vec::new();
    for name in ['a', 'b', 'c', 'd', 'e', 'f', 'g', 'h', 'i'] {
        v.push(Noted { name, log: log.clone() });
    }
    assert_eq!(v.cap(), 16);
    assert_eq!(log.borrow().len(), 0);
    assert_eq!(v.get(8).name, 'i');
}
