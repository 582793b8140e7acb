use jsondoc::adder::{add, Guess, Rectangle};
use jsondoc::arith::gcd;
use jsondoc::canvas::{Broom, Canvas, Sink};
use jsondoc::misc::{
    args_from, artist_table_creator, build_vector, compare, generate_workout,
    http_status_from_u32, my_min, new_pixel_buffer, padovan, smallest, BinaryTree, Cacher,
    HttpStatus, KeyedCacher, NumGen, TreeNode, Workout,
};
use jsondoc::replace::replace;
use jsondoc::text::{
    at_end, bytes_converter, describe_balloon_location, greet_people, i64_string,
    rough_time_to_english, u64_string, Ascii, Balloon, IsEmoji, NotAsciiError, Point, RoughTime,
    TimeUnit,
};
use std::cmp::Ordering;

#[test]
fn test_gcd() {
    let test_data: [(u64, u64, u64); 5] = [
        (100, 10, 10),
        (20, 25, 5),
        (18, 12, 6),
        (14, 15, 1),
        (2 * 3 * 5 * 11 * 17, 3 * 7 * 11 * 13 * 19, 3 * 11),
    ];
    for (idx, &(m, n, expected)) in test_data.iter().enumerate() {
        let res = gcd(n, m);
        println!(
            "test case {} : gcd of m = {} and n = {}  is {}",
            idx, m, n, res
        );
        assert_eq!(res, expected);
    }
}

#[test]
fn it_works() {
    let result = add(2, 2);
    assert_eq!(result, 4);
}

#[test]
fn it_works_2() -> Result<(), String> {
    if 2 + 2 == 4 {
        Ok(())
    } else {
        Err(String::from("two plus two does not equal four"))
    }
}

#[test]
fn larger_can_hold_smaller() {
    let larger = Rectangle {
        width: 8,
        height: 7,
    };
    let smaller = Rectangle {
        width: 5,
        height: 1,
    };
    assert!(
        larger.can_hold(&smaller),
        "Larger is failing to hold smaller!"
    );
}

#[test]
fn smaller_cannot_hold_larger() {
    let larger = Rectangle {
        width: 8,
        height: 7,
    };
    let smaller = Rectangle {
        width: 5,
        height: 1,
    };
    assert!(
        !smaller.can_hold(&larger),
        "Smaller can hold larger, which is technically impossible!"
    );
}

#[test]
fn guess_accepts_the_range_ends() {
    let _low = Guess::new(1);
    let _high = Guess::new(100);
}

#[test]
fn test_ordering() {
    assert_eq!(compare(10, 20), Ordering::Less);
    assert_eq!(compare(30, 20), Ordering::Greater);
    assert_eq!(compare(2, 2), Ordering::Equal);
}

#[test]
fn test_http_status() {
    assert_eq!(HttpStatus::Okay.code(), 200);
    assert_eq!(http_status_from_u32(200), Some(HttpStatus::Okay));
    assert_eq!(http_status_from_u32(304), Some(HttpStatus::NotModified));
    assert_eq!(http_status_from_u32(404), Some(HttpStatus::NotFound));
    assert_eq!(http_status_from_u32(10), None);
}

#[test]
fn test_visible_trait() {
    let mut canvas = Canvas::new(30, 30, ' ');
    let broom = Broom {
        x: 15,
        y: 15,
        height: 7,
    };
    broom.draw(&mut canvas);
    assert_eq!(broom.hit_test(15, 15), true);
    assert_eq!(broom.hit_test(10, 25), false);
    assert_eq!(canvas.grid[15][15], 'M');
    assert_eq!(canvas.grid[8][15], '|');
    assert_eq!(canvas.grid[8][14], ' ');
}

#[test]
fn canvas_write_at_respects_bounds() {
    let mut canvas = Canvas::new(2, 2, '.');
    assert!(canvas.write_at(1, 0, 'x'));
    assert!(!canvas.write_at(2, 0, 'x'));
    assert_eq!(canvas.grid[0][1], 'x');
    assert_eq!(canvas.grid[0][0], '.');
}

#[test]
fn sink_takes_everything() {
    let mut out = Sink;
    assert_eq!(out.write(b"hello world\n"), 12);
    out.flush();
}

#[test]
fn test_multiple_possibilities() {
    assert_eq!(at_end(Some('\n')), true);
    assert_eq!(at_end(Some('\r')), true);
    assert_eq!(at_end(None), true);
    assert_eq!(at_end(Some('a')), false);
}

#[test]
fn test_bytes_converter() {
    assert_eq!(bytes_converter(10), "10".to_string());
    assert_eq!(bytes_converter(1024), "1K".to_string());
    assert_eq!(bytes_converter(1024 * 1024 * 2), "2M".to_string());
    assert_eq!(bytes_converter(1024 * 1024 * 24 * 1024), "big".to_string());
}

#[test]
fn decimal_strings() {
    assert_eq!(u64_string(0), "0");
    assert_eq!(u64_string(10), "10");
    assert_eq!(u64_string(12345), "12345");
    assert_eq!(u64_string(u64::MAX), u64::MAX.to_string());
    assert_eq!(i64_string(-42), "-42");
    assert_eq!(i64_string(7), "7");
    assert_eq!(i64_string(i64::MIN), i64::MIN.to_string());
}

#[test]
fn test_time() {
    assert_eq!(
        rough_time_to_english(RoughTime::InTheFuture(TimeUnit::Months, 1)),
        "1 month from now"
    );
    assert_eq!(
        rough_time_to_english(RoughTime::InTheFuture(TimeUnit::Hours, 3)),
        "3 hours from now"
    );
    assert_eq!(
        rough_time_to_english(RoughTime::InThePast(TimeUnit::Years, 2)),
        "2 years ago"
    );
    assert_eq!(rough_time_to_english(RoughTime::JustNow), "just now");
    assert_eq!(TimeUnit::Seconds.plural(), "seconds");
    assert_eq!(TimeUnit::Seconds.singular(), "second");
}

#[test]
fn test_greet_people() {
    let names: Vec<String> = vec![
        "Jack".to_string(),
        "Jill".to_string(),
        "Jasper".to_string(),
        "Jones".to_string(),
    ];
    assert_eq!(greet_people(&[]), "Hello nobody");
    assert_eq!(greet_people(&names[0..1]), "Hello, Jack.");
    assert_eq!(greet_people(&names[0..2]), "Hello, Jack and Jill");
    assert_eq!(
        greet_people(&names[0..3]),
        "Hello, everyone from Jack to Jasper"
    );
    assert_eq!(
        greet_people(&names[..]),
        "Hello, everyone from Jack to Jones"
    );
}

#[test]
fn test_balloon() {
    let ball1 = Balloon {
        location: Point { x: 0, y: 10 },
    };
    let ball2 = Balloon {
        location: Point { x: 3, y: 80 },
    };
    assert_eq!(describe_balloon_location(ball1), "straight up 10 meters");
    assert_eq!(describe_balloon_location(ball2), "at 3m , 80m");
}

#[test]
fn ascii_from_bytes_accepts_ascii() {
    let bytes: Vec<u8> = b"ASCII and ye shall receive".to_vec();
    let ascii = Ascii::from_bytes(bytes.clone()).unwrap();
    assert_eq!(ascii.into_bytes(), bytes);
}

#[test]
fn ascii_from_bytes_rejects_non_ascii() {
    let bytes: Vec<u8> = vec![b'o', b'k', 0xC3, 0xA9];
    let err = Ascii::from_bytes(bytes.clone()).unwrap_err();
    assert_eq!(err, NotAsciiError(bytes));
}

#[test]
fn replace_rewrites_matches() {
    let out = replace("world", "Rust", "Hello, world").unwrap();
    assert_eq!(out, "Hello, Rust");
    let out = replace("l+", "L", "Hello, world").unwrap();
    assert_eq!(out, "HeLo, worLd");
}

#[test]
fn replace_rejects_a_bad_pattern() {
    let err = replace("[[a-z]", "0", "Hello, world").unwrap_err();
    assert!(!err.message.is_empty());
}

#[test]
fn smallest_finds_the_minimum() {
    let parabola = [9, 4, 1, 0, 1, 4, 9];
    let s = smallest(&parabola);
    assert_eq!(*s, 0);
    assert_eq!(my_min(3, 4), 3);
    assert_eq!(my_min(4, 3), 3);
}

#[test]
fn vectors_and_buffers() {
    assert_eq!(build_vector(), vec![10, 20]);
    let mut vec_of_pixels = new_pixel_buffer(2, 2);
    vec_of_pixels[0] = 1;
    assert_eq!(vec_of_pixels, vec![1, 0, 0, 0]);
}

#[test]
fn artist_table_holds_the_collection() {
    let table = artist_table_creator();
    assert_eq!(table.len(), 3);
    assert_eq!(table[0].0, "Gesualdo");
    assert_eq!(table[0].1[0], "many madigrals");
    assert_eq!(table[2].1[1], "a salt cellar");
}

#[test]
fn num_gen_counts_up_from_two() {
    let mut gen = NumGen::new();
    assert_eq!(gen.next(), Some(2));
    assert_eq!(gen.next(), Some(3));
    assert_eq!(gen.next(), Some(4));
}

#[test]
fn cacher_runs_the_calculation_once() {
    let mut cacher = Cacher::new(|n: u32| n + 1);
    assert_eq!(cacher.value(10), 11);
    assert_eq!(cacher.value(99), 11);
}

#[test]
fn workout_decisions() {
    assert_eq!(generate_workout(10, 7), Workout::PushupsAndSitups(10));
    assert_eq!(generate_workout(30, 3), Workout::Break);
    assert_eq!(generate_workout(30, 7), Workout::Run(30));
}

#[test]
fn args_from_slots_four_arguments() {
    let args: Vec<String> = vec!["a", "b", "c", "d"]
        .into_iter()
        .map(|s| s.to_string())
        .collect();
    let a = args_from(&args);
    assert_eq!(a.target, "a");
    assert_eq!(a.replacement, "b");
    assert_eq!(a.filename, "c");
    assert_eq!(a.output, "d");
}

#[test]
fn test_traits_on_existing_types() {
    assert_eq!('a'.is_emoji(), true);
    assert_eq!('1'.is_emoji(), false);
}

#[test]
fn padovan_numbers() {
    assert_eq!(padovan(10), vec![1, 1, 1, 2, 2, 3, 4, 5, 7, 9]);
    assert_eq!(padovan(0), Vec::<u64>::new());
}

#[test]
fn binary_tree_of_planets() {
    let mercury_tree = BinaryTree::NonEmpty(Box::new(TreeNode {
        element: "Mercury",
        left: BinaryTree::Empty,
        right: BinaryTree::Empty,
    }));
    let jupiter_tree = BinaryTree::NonEmpty(Box::new(TreeNode {
        element: "Jupiter",
        left: BinaryTree::Empty,
        right: BinaryTree::Empty,
    }));
    let mars_tree = BinaryTree::NonEmpty(Box::new(TreeNode {
        element: "Mars",
        left: jupiter_tree,
        right: mercury_tree,
    }));
    match &mars_tree {
        BinaryTree::NonEmpty(node) => {
            assert_eq!(node.element, "Mars");
            match &node.left {
                BinaryTree::NonEmpty(left) => assert_eq!(left.element, "Jupiter"),
                BinaryTree::Empty => panic!("left subtree missing"),
            }
        }
        BinaryTree::Empty => panic!("tree missing"),
    }
}

#[test]
fn keyed_cacher_remembers_per_argument() {
    let mut cacher = KeyedCacher::new(|n: u32| n * 2);
    assert_eq!(cacher.value(10), 20);
    assert_eq!(cacher.value(3), 6);
    assert_eq!(cacher.value(10), 20);
}
