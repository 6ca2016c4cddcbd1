use vstd::prelude::*;

use std::collections::HashMap;
use std::hash::Hash;
use vstd::std_specs::hash::obeys_key_model;

use crate::game::Game;
use crate::point::Direction;
use crate::spider::SpiderView;

verus! {

broadcast use vstd::std_specs::hash::group_hash_axioms;

/// What a bound key asks the game to do.
#[derive(Debug, Clone, Copy, PartialEq, Eq, Hash, Structural)]
pub enum RouterCommand {
    UP,
    DOWN,
    LEFT,
    RIGHT,
    STOP,
    PAUSE,
}

/// The game after `command` is handled: the spider's direction or the pause
/// flag changes, and nothing else.
pub open spec fn handled(old_game: &Game, new_game: &Game, command: RouterCommand) -> bool {
    let turn = |d: Direction|
        new_game.spider_spec() == (SpiderView { dir: d, ..old_game.spider_spec() })
            && new_game.paused_spec() == old_game.paused_spec();
    &&& new_game.snake_spec() == old_game.snake_spec()
    &&& new_game.field_spec() == old_game.field_spec()
    &&& new_game.game_over_spec() == old_game.game_over_spec()
    &&& match command {
        RouterCommand::UP => turn(Direction::UP),
        RouterCommand::DOWN => turn(Direction::DOWN),
        RouterCommand::LEFT => turn(Direction::LEFT),
        RouterCommand::RIGHT => turn(Direction::RIGHT),
        RouterCommand::STOP => turn(Direction::NONE),
        RouterCommand::PAUSE => new_game.spider_spec() == old_game.spider_spec()
            && new_game.paused_spec() == !old_game.paused_spec(),
    }
}

fn apply_command(command: RouterCommand, game: &mut Game)
    requires
        old(game).wf(),
    ensures
        final(game).wf(),
        handled(old(game), final(game), command),
{
    match command {
        RouterCommand::UP => game.handle_up(),
        RouterCommand::DOWN => game.handle_down(),
        RouterCommand::LEFT => game.handle_left(),
        RouterCommand::RIGHT => game.handle_right(),
        RouterCommand::STOP => game.handle_stop(),
        RouterCommand::PAUSE => game.handle_pause(),
    }
}

/// Maps input keys to game commands.
#[derive(Debug)]
pub struct Router<KeyT: Eq + Hash> {
    key_to_command: HashMap<KeyT, RouterCommand>,
}

impl<KeyT: Eq + Hash> View for Router<KeyT> {
    type V = Map<KeyT, RouterCommand>;

    closed spec fn view(&self) -> Map<KeyT, RouterCommand> {
        self.key_to_command@
    }
}

impl<KeyT: Eq + Hash> Router<KeyT> {
    /// A router with no key bound.
    pub fn new() -> (r: Router<KeyT>)
        ensures
            r@ == Map::<KeyT, RouterCommand>::empty(),
    {
        Router { key_to_command: HashMap::new() }
    }

    /// Binds `key` to `command`; hands back the command it was bound to.
    pub fn bind(&mut self, key: KeyT, command: RouterCommand) -> (r: Option<RouterCommand>)
        ensures
            obeys_key_model::<KeyT>() ==> final(self)@ == old(self)@.insert(key, command) && (
            if old(self)@.contains_key(key) {
                r == Some(old(self)@[key])
            } else {
                r is None
            }),
    {
        self.key_to_command.insert(key, command)
    }

    /// Hands the command bound to `key`, if any, to the game.
    pub fn route(&self, key: KeyT, game: &mut Game)
        requires
            old(game).wf(),
        ensures
            final(game).wf(),
            obeys_key_model::<KeyT>() ==> if self@.contains_key(key) {
                handled(old(game), final(game), self@[key])
            } else {
                *final(game) == *old(game)
            },
    {
        match self.key_to_command.get(&key) {
            Some(command) => apply_command(*command, game),
            None => {},
        }
    }
}

} // verus!
