use vstd::prelude::*;
use crate::text::{chars_of, same_chars};

verus! {

/// Speed levels understood by the fan controller.
#[derive(PartialEq, Eq, Structural, Clone, Copy, Debug)]
pub enum FanSpeed {
    Level0,
    Level1,
    Level2,
    Level3,
    Level4,
    Level5,
    Level6,
    Level7,
    FullSpeed,
    Auto,
}

/// The command written to the control device to select `speed`.
pub open spec fn command_of(speed: FanSpeed) -> Seq<char> {
    match speed {
        FanSpeed::Level0 => "level 0"@,
        FanSpeed::Level1 => "level 1"@,
        FanSpeed::Level2 => "level 2"@,
        FanSpeed::Level3 => "level 3"@,
        FanSpeed::Level4 => "level 4"@,
        FanSpeed::Level5 => "level 5"@,
        FanSpeed::Level6 => "level 6"@,
        FanSpeed::Level7 => "level 7"@,
        FanSpeed::FullSpeed => "level full-speed"@,
        FanSpeed::Auto => "level auto"@,
    }
}

/// The speed named by a configuration token; unknown tokens select `Auto`.
pub open spec fn speed_of_token(token: Seq<char>) -> FanSpeed {
    if token == "0"@ {
        FanSpeed::Level0
    } else if token == "1"@ {
        FanSpeed::Level1
    } else if token == "2"@ {
        FanSpeed::Level2
    } else if token == "3"@ {
        FanSpeed::Level3
    } else if token == "4"@ {
        FanSpeed::Level4
    } else if token == "5"@ {
        FanSpeed::Level5
    } else if token == "6"@ {
        FanSpeed::Level6
    } else if token == "7"@ {
        FanSpeed::Level7
    } else if token == "full-speed"@ {
        FanSpeed::FullSpeed
    } else {
        FanSpeed::Auto
    }
}

/// The command string for a speed level.
pub fn convert_fan_speed(fan_speed: FanSpeed) -> (r: String)
    ensures
        r@ == command_of(fan_speed),
{
    match fan_speed {
        FanSpeed::Level0 => String::from_str("level 0"),
        FanSpeed::Level1 => String::from_str("level 1"),
        FanSpeed::Level2 => String::from_str("level 2"),
        FanSpeed::Level3 => String::from_str("level 3"),
        FanSpeed::Level4 => String::from_str("level 4"),
        FanSpeed::Level5 => String::from_str("level 5"),
        FanSpeed::Level6 => String::from_str("level 6"),
        FanSpeed::Level7 => String::from_str("level 7"),
        FanSpeed::FullSpeed => String::from_str("level full-speed"),
        FanSpeed::Auto => String::from_str("level auto"),
    }
}

fn token_is(token: &Vec<char>, lit: &str) -> (r: bool)
    ensures
        r == (token@ == lit@),
{
    same_chars(token, &chars_of(lit))
}

/// The speed named by the configuration token `token`.
pub fn speed_of_chars(token: &Vec<char>) -> (r: FanSpeed)
    ensures
        r == speed_of_token(token@),
{
    if token_is(token, "0") {
        FanSpeed::Level0
    } else if token_is(token, "1") {
        FanSpeed::Level1
    } else if token_is(token, "2") {
        FanSpeed::Level2
    } else if token_is(token, "3") {
        FanSpeed::Level3
    } else if token_is(token, "4") {
        FanSpeed::Level4
    } else if token_is(token, "5") {
        FanSpeed::Level5
    } else if token_is(token, "6") {
        FanSpeed::Level6
    } else if token_is(token, "7") {
        FanSpeed::Level7
    } else if token_is(token, "full-speed") {
        FanSpeed::FullSpeed
    } else {
        FanSpeed::Auto
    }
}

/// The speed named by a configuration token: `"0"` to `"7"`, `"full-speed"`,
/// and `Auto` for `"auto"` and for any other token.
pub fn convert_number_to_fan_speed(value: &str) -> (r: FanSpeed)
    ensures
        r == speed_of_token(value@),
{
    speed_of_chars(&chars_of(value))
}

/// The character of a command that tells its speed apart.
spec fn speed_mark(speed: FanSpeed) -> char {
    match speed {
        FanSpeed::Level0 => '0',
        FanSpeed::Level1 => '1',
        FanSpeed::Level2 => '2',
        FanSpeed::Level3 => '3',
        FanSpeed::Level4 => '4',
        FanSpeed::Level5 => '5',
        FanSpeed::Level6 => '6',
        FanSpeed::Level7 => '7',
        FanSpeed::FullSpeed => 'f',
        FanSpeed::Auto => 'a',
    }
}

proof fn lemma_command_mark(speed: FanSpeed)
    ensures
        command_of(speed).len() > 6,
        command_of(speed)[6] == speed_mark(speed),
        command_of(speed).take(6) == "level "@,
{
    reveal_strlit("level ");
    reveal_strlit("level 0");
    reveal_strlit("level 1");
    reveal_strlit("level 2");
    reveal_strlit("level 3");
    reveal_strlit("level 4");
    reveal_strlit("level 5");
    reveal_strlit("level 6");
    reveal_strlit("level 7");
    reveal_strlit("level full-speed");
    reveal_strlit("level auto");
    assert(command_of(speed).take(6) =~= "level "@);
}

/// Each speed has one command, all of the form `level ...`, and no two speeds
/// share a command.
pub proof fn lemma_commands_distinct(a: FanSpeed, b: FanSpeed)
    ensures
        command_of(a).take(6) == "level "@,
        command_of(a) == command_of(b) <==> a == b,
{
    lemma_command_mark(a);
    lemma_command_mark(b);
}

} // verus!
