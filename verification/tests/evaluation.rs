use brainfuck::Engine;

#[test]
fn lib_test1() {
    let result = Engine::new(0, vec![72, 111, 103, 101, 10, 70, 111, 111, 0]).eval("[.>]", "");
    assert_eq!(result, Ok("Hoge\nFoo".to_owned()));
}

#[test]
fn lib_test2() {
    let source = "++>+++++[<+>-]++++++++[<++++++>-]<.";

    let result = Engine::new(0, vec![0; 8096]).eval(source, "");
    assert_eq!(result, Ok("7".to_owned()));
}

#[test]
fn lib_test3() {
    let source = "2+>5+[<+>-]8+[<6+>-]<.";

    let result = Engine::new(0, vec![0; 8096]).eval(source, "");
    assert_eq!(result, Ok("7".to_owned()));
}

#[test]
fn lib_hello_world() {
    let hello_world = "++++++++[>++++[>++>+++>+++>+<<<<-]>+>+>->>+[<]<-]>>.>---.+++++++..+++.>>.<-.<.++
       +.------.--------.>>+.>++.";

    let result = Engine::new(0, vec![0; 8096]).eval(hello_world, "");
    assert_eq!(result, Ok("Hello World!\n".to_owned()));
}

#[test]
fn lib_hello_world2() {
    let hello_world = "8+[>4+[>2+>3+>3+>+4<-]>+>+>-2>+[<]<-]2>.>3-.7+..3+.2>.<-.<.3+.6-.8-.2>+.>2+.";

    let result = Engine::new(0, vec![0; 8096]).eval(hello_world, "");
    assert_eq!(result, Ok("Hello World!\n".to_owned()));
}

#[test]
fn lib_fizz_buzz() {
    let source = "++++++[->++++>>+>+>-<<<<<]>[<++++>>+++>++++>>+++>+++++>+++++>>>>>>++>>++<<<<<<<<
     <<<<<<-]<++++>+++>-->+++>->>--->++>>>+++++[->++>++<<]<<<<<<<<<<[->-[>>>>>>>]>[<+
     ++>.>.>>>>..>>>+<]<<<<<-[>>>>]>[<+++++>.>.>..>>>+<]>>>>+<-[<<<]<[[-<<+>>]>>>+>+<
     <<<<<[->>+>+>-<<<<]<]>>[[-]<]>[>>>[>.<<.<<<]<[.<<<<]>]>.<<<<<<<<<<<]";

    let result = Engine::new(0, vec![0; 8096]).eval(source, "");
    assert!(result.is_ok());

    for (i, r) in result.unwrap().split("\n").filter(|&s| s != "").enumerate() {
        if (i + 1) % 15 == 0 {
            assert_eq!(r, "FizzBuzz");
        } else if (i + 1) % 3 == 0 {
            assert_eq!(r, "Fizz");
        } else if (i + 1) % 5 == 0 {
            assert_eq!(r, "Buzz");
        } else {
            assert_eq!(r, format!("{}", i + 1));
        }
    }
}

#[test]
fn fizz_buzz2() {
    let source = "6+[->4+2>+>+>-5<]>[<4+2>3+>4+>>3+>5+>5+6>2+2>2+14<-]
       <4+>3+>2->3+>-2>3->2+3>5+[->2+>2+2<]10<[->-[7>]>[<3+
       >.>.4>..3>+<]5<-[4>]>[<5+>.>.>..3>+<]4>+<-[3<]<[[-2<
       +2>]3>+>+6<[-2>+>+>-4<]<]2>[[-]<]>[3>[>.2<.3<]<[.4<]
       >]>.11<]";

    let result = Engine::new(0, vec![0; 8096]).eval(source, "");
    assert!(result.is_ok());

    for (i, r) in result.unwrap().split("\n").filter(|&s| s != "").enumerate() {
        if (i + 1) % 15 == 0 {
            assert_eq!(r, "FizzBuzz");
        } else if (i + 1) % 3 == 0 {
            assert_eq!(r, "Fizz");
        } else if (i + 1) % 5 == 0 {
            assert_eq!(r, "Buzz");
        } else {
            assert_eq!(r, format!("{}", i + 1));
        }
    }
}

#[test]
fn lib_primes() {
    let source = ">++++[<++++++++>-]>++++++++[<++++++>-]<++.<.>+.<.>++.<.>++.<.>>++[<--->-]<..<.>.
       ++.<.>--.>++[<+++>-]<.<.>>++[<--->-]<.>++[<++++>-]<.<.>>++[<--->-]<-.+.<.>-.>+++
       [<++>-]<+.<.>>++[<--->-]<.--.<.>++.++++.<.>---.---.<.>++.-.<.>+.+++.<.>--.--.<.>
       ++.++++.<.>---.-----.<.>+++++.+.<.>.>++[<--->-]<.<.>>++[<+++>-]<.----.<.>++++.++
       .<.>-.-----.<.>+++++.+.<.>.--.";

    let result = Engine::new(0, vec![0; 8096]).eval(source, "");
    assert_eq!(
        result,
        Ok("2 3 5 7 11 13 17 19 23 29 31 37 41 32 36 42 48 50 56 60 62 68 72 78 86".to_owned())
    );
}
