use mulch::util::IVec;

/// Keeps track of whether objects are dropped. This will detect double-frees and leaks.
pub struct DropReg {
    pub register: Option<usize>,
    pub expected: usize,
}

impl DropReg {
    pub fn new(id: usize) -> Self {
        Self { register: None, expected: id }
    }

    pub fn get<'a>(&'a mut self) -> DropTester<'a> {
        DropTester { reg: self, dropped: false }
    }

    pub fn assert_dropped(&self) {
        let Some(reg) = self.register else { panic!("Object was not dropped") };

        if reg != self.expected {
            panic!("Undefined behavior triggered")
        }
    }
}

pub struct DropTester<'a> {
    pub reg: &'a mut DropReg,
    pub dropped: bool,
}

impl<'a> DropTester<'a> {
    pub fn check(&self) {
        if self.dropped {
            panic!("Use-after drop detected!")
        }
    }
}

impl<'a> Drop for DropTester<'a> {
    fn drop(&mut self) {
        if self.reg.register.is_some() {
            panic!("Double drop detected!")
        }

        self.reg.register = Some(self.reg.expected);
        self.dropped = true;
    }
}

#[test]
/// Ensures that heap-allocated `IVec`s don't leak memory and don't double-free memory.
fn ivec_drop_heap() {
    let mut registers: Vec<DropReg> = (1..=5).map(DropReg::new).collect();

    let mut ivec: IVec<2, DropTester> = IVec::new();

    for reg in registers.iter_mut() {
        ivec.push(reg.get());
    }

    for t in ivec.iter() {
        t.check();
    }

    assert!(!ivec.is_inline());
    std::mem::drop(ivec);

    for r in registers {
        r.assert_dropped();
    }
}

#[test]
/// Ensures that inline `IVec`s don't leak memory and don't double-free memory.
fn ivec_drop_stack() {
    drop(IVec::<0, Box<usize>>::new());
    drop(IVec::<1, Box<usize>>::new());

    let mut registers: Vec<DropReg> = (1..=2).map(DropReg::new).collect();

    let mut ivec: IVec<3, DropTester> = IVec::new();

    for reg in registers.iter_mut() {
        ivec.push(reg.get());
    }

    for t in ivec.iter() {
        t.check();
    }

    assert!(ivec.is_inline());
    std::mem::drop(ivec);

    for r in registers {
        r.assert_dropped();
    }
}

#[test]
fn ivec_1() {
    let mut v: IVec<2, char> = IVec::new();
    assert_eq!(*v, []);
    assert!(v.is_inline());

    v.push('a');
    assert_eq!(*v, ['a']);
    assert!(v.is_inline());

    v.push('b');
    assert_eq!(*v, ['a', 'b']);
    assert!(v.is_inline());

    v.push('c');
    assert_eq!(*v, ['a', 'b', 'c']);
    assert!(!v.is_inline());

    v.push('d');
    assert_eq!(*v, ['a', 'b', 'c', 'd']);
    assert!(!v.is_inline());
}

#[test]
fn ivec_2() {
    let mut v: IVec<0, char> = IVec::new();
    assert_eq!(*v, []);
    assert!(v.is_inline());

    v.push('a');
    assert_eq!(*v, ['a']);
    assert!(!v.is_inline());

    v.push('b');
    assert_eq!(*v, ['a', 'b']);
    assert!(!v.is_inline());
}

#[test]
fn ivec_from_vec_is_on_the_heap() {
    let mut v: IVec<4, u32> = IVec::from_vec(vec![1, 2]);
    assert!(!v.is_inline());
    assert_eq!(v.len(), 2);
    assert_eq!(*v, [1, 2]);
    v.push(3);
    assert!(!v.is_inline());
    assert_eq!(v.as_slice(), [1, 2, 3]);
}

#[test]
fn ivec_get_and_set() {
    let mut v: IVec<1, u32> = IVec::new();
    assert_eq!(v.len(), 0);
    assert_eq!(v.get(0), None);
    v.push(7);
    assert_eq!(v.len(), 1);
    assert!(v.is_inline());
    assert_eq!(v.get(0), Some(&7));
    assert_eq!(v.get(1), None);
    v.set(0, 9);
    assert_eq!(v.get(0), Some(&9));
    v.push(8);
    assert!(!v.is_inline());
    v.as_mut_slice()[1] = 5;
    assert_eq!(*v, [9, 5]);
    assert_eq!(v.len(), 2);
}
