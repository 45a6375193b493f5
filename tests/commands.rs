use commands::{Command, CommandList, CommandPayload, PayloadAware, PayloadCommand};

#[test]
fn command() {
    let mut x = 12 as u32;
    let y = 1 as u32;

    let aux = CommandPayload::new(
        move |x: &mut u32, &y: &u32| {
            *x = *x + y;
            println!("{}", x);
        },
        y,
    );
    aux.exec(&mut x);
    assert_eq!(x, 13);
}

#[test]
fn complex_types() {
    let mut x = vec![1, 2, 3, 4];
    let y = 1;

    let aux = CommandPayload::new(move |x: &mut Vec<i32>, &y: &i32| { x.push(y); }, y);

    aux.exec(&mut x);
    assert_eq!(x.len(), 5);
}

struct Tmp {
    a: i32,
}

impl Tmp {
    fn new(a: i32) -> Tmp {
        Tmp { a: a }
    }

    fn get(&self) -> i32 {
        self.a
    }
}

#[test]
fn custom_type() {
    let mut x = vec![1, 2, 3, 4];
    let y = Tmp::new(1);

    let cmd = CommandPayload::new(move |x: &mut Vec<i32>, y: &Tmp| { x.push(y.get()); }, y);

    let boxed = Box::new(cmd);
    boxed.exec(&mut x);

    assert_eq!(x.len(), 5);
}

#[test]
fn mix_different() {
    let mut ctx: Vec<String> = Vec::new();
    let a = 1111 as u32;

    let cmd1 = CommandPayload::new(move |x: &mut Vec<String>, &y: &u32| { x.push(format!("{}", y)); }, a);

    let b = 1.001 as f32;
    let cmd2 = CommandPayload::new(move |x: &mut Vec<String>, &y: &f32| { x.push(format!("{}", y)); }, b);

    let cmd3 = CommandPayload::new(
        move |x: &mut Vec<String>, _: &()| {
            x.push(String::from("this is text"));
        },
        (),
    );

    let mut list: Vec<Box<dyn Command<Vec<String>>>> = Vec::new();

    list.push(Box::new(cmd1));
    list.push(Box::new(cmd2));
    list.push(Box::new(cmd3));

    for cmd in list {
        cmd.exec(&mut ctx);
    }
    assert_eq!(ctx.len(), 3);
    assert_eq!(ctx[0], "1111");
    assert_eq!(ctx[2], "this is text");

    for s in ctx {
        println!("{}", s);
    }
}

#[test]
fn macros() {
    let mut u = 1 as u32;
    let cmd1 = CommandPayload::new(move |ctx: &mut u32, _: &()| { println!("hello macro {}", ctx) }, ());
    cmd1.exec(&mut u);

    let cmd2 = CommandPayload::new(
        move |myctx: &mut u32, _: &()| {
            let x = 324;
            println!("hello macro, {} {}", myctx, x)
        },
        (),
    );
    cmd2.exec(&mut u);

    let a = 1;
    let b = 1.1;
    let cmd3 = CommandPayload::new(
        move |ctx: &mut u32, pay: &(i32, f64)| { println!("hello {:?} {}", pay, ctx); },
        (a, b),
    );
    cmd3.exec(&mut u);
}

#[test]
fn payload() {
    let mut u = 1 as u32;
    let a = 1;
    let b = 1.1;
    let cmd = CommandPayload::new(
        move |ctx: &mut u32, pay: &(i32, f64)| { println!("hello {:?} {}", pay, ctx) },
        (a, b),
    );
    cmd.exec(&mut u);
    let &(x, y) = cmd.get_payload();
    assert_eq!(x, 1);
    assert_eq!(y, 1.1);
}

fn generate_command_list() -> CommandList<Vec<String>> {
    type Ctx = Vec<String>;

    let mut list = CommandList::<Vec<String>>::new();

    list.add(Box::new(CommandPayload::new(move |ctx: &mut Ctx, _: &()| ctx.push(format!("hello")), ())));
    list.add(Box::new(CommandPayload::new(move |ctx: &mut Ctx, n: &i32| ctx.push(format!("{}", n)), 1)));
    list.add(Box::new(CommandPayload::new(move |ctx: &mut Ctx, n: &i32| ctx.push(format!("{}", n)), 2)));
    list.add(Box::new(CommandPayload::new(move |ctx: &mut Ctx, n: &i32| ctx.push(format!("{}", n)), 3)));
    list
}

#[test]
fn command_list() {
    let mut ctx: Vec<String> = Vec::new();

    let list = generate_command_list();

    for cmd in list {
        cmd.exec(&mut ctx);
    }

    for s in ctx {
        println!("{}", s);
    }
}

fn appending(s: &'static str) -> Box<dyn Command<Vec<String>>> {
    Box::new(CommandPayload::new(move |ctx: &mut Vec<String>, p: &&'static str| ctx.push(p.to_string()), s))
}

#[test]
fn list_runs_in_insertion_order() {
    let mut list = CommandList::<Vec<String>>::new();
    list.add(appending("x"));
    list.add(appending("y"));
    list.add(appending("z"));
    assert_eq!(list.len(), 3);
    let mut ctx: Vec<String> = Vec::new();
    for cmd in list {
        cmd.exec(&mut ctx);
    }
    assert_eq!(ctx, vec!["x", "y", "z"]);
}

#[test]
fn into_commands_keeps_order() {
    let mut list = CommandList::<Vec<String>>::new();
    list.add(appending("1"));
    list.add(appending("2"));
    let mut ctx: Vec<String> = Vec::new();
    let cmds = list.into_commands();
    assert_eq!(cmds.len(), 2);
    for cmd in cmds {
        cmd.exec(&mut ctx);
    }
    assert_eq!(ctx, vec!["1", "2"]);
}

#[test]
fn empty_list_runs_nothing() {
    let list = CommandList::<Vec<String>>::new();
    assert_eq!(list.len(), 0);
    assert_eq!(list.into_commands().len(), 0);
}

#[test]
fn payload_is_kept_through_runs() {
    let cmd = CommandPayload::new(move |ctx: &mut u32, p: &u32| *ctx += *p, 7u32);
    let mut ctx = 0u32;
    cmd.exec(&mut ctx);
    cmd.exec(&mut ctx);
    assert_eq!(ctx, 14);
    assert_eq!(*cmd.get_payload(), 7);
    let boxed: Box<dyn PayloadCommand<u32, u32>> = Box::new(cmd);
    boxed.exec(&mut ctx);
    assert_eq!(*boxed.get_payload(), 7);
    assert_eq!(ctx, 21);
}
