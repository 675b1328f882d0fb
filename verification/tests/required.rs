use serverx::ecs::tuple::{TupleAdd, TupleAddMut, TupleAddRef};
use std::cell::UnsafeCell;

fn display_name<T: 'static>() {
    println!("{:?}", std::any::TypeId::of::<T>());
}

#[test]
fn iter_test2() {
    let a = {
        #[derive(Debug)]
        struct Foo {
            bar: i32,
        }
        Foo { bar: 1 }
    };
    let b = {
        #[derive(Debug)]
        struct Foo {
            baz: i32,
        }
        Foo { baz: 2 }
    };

    println!("{:?}, {:?}", a, b);
}

#[test]
fn iter_test3() {
    #[derive(Debug)]
    struct Foo<'a> {
        bar: &'a i32,
    }

    #[derive(Debug)]
    struct Baz<'a> {
        qux: &'a i32,
    }

    let x = 1i32;
    let y = 2i32;

    let mut a = Foo { bar: &x };
    let mut b = Baz { qux: &y };

    let something = {
        #[derive(Debug)]
        struct Something<'a, T, U> {
            a: &'a mut T,
            b: &'a mut U,
        }

        Something { a: &mut a, b: &mut b }
    };

    println!("{:?}", something);
}

#[test]
fn mod_test() {
    struct Cell<T> {
        inner: UnsafeCell<T>,
    }

    impl<T> Cell<T> {
        #[allow(dead_code)]
        fn new(value: T) -> Self {
            Self { inner: UnsafeCell::new(value) }
        }
    }

    let c = Cell::new(1i32);
    let _ = &c.inner;
}

#[test]
fn borrow_test() {
    display_name::<<(i32, i64) as TupleAdd<String>>::Result>();
    assert_eq!(
        std::any::TypeId::of::<<(i32, i64) as TupleAdd<String>>::Result>(),
        std::any::TypeId::of::<(String, i32, i64)>()
    );
}

#[test]
fn borrow_test2() {
    display_name::<<() as TupleAddRef<&'static String>>::Result>();
    display_name::<<() as TupleAddRef<&'static mut String>>::Result>();
    display_name::<<(&'static i32, &'static i64) as TupleAddRef<&'static String>>::Result>();
    display_name::<<(&'static i32, &'static i64) as TupleAddRef<&'static mut String>>::Result>();
    display_name::<<(&'static mut i32, &'static mut i64) as TupleAddMut<&'static mut String>>::Result>();
    display_name::<<(&'static mut i32, &'static mut i64) as TupleAddMut<&'static String>>::Result>();
}

#[test]
fn test_hashmap() {}
