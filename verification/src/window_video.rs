//! The video backdrop of a wallpaper-mode window: a looping, muted video blurred like the
//! wallpaper picture and placed the same way, which plays only while someone can see it.
//!
//! Windows showing the same file share one player, so a window laid over another (a floating
//! panel) shows exactly the same frame as the window under it, and the video is decoded once.

use crate::geometry::{Bounds, Pixels, Point, Rect, Size};
use crate::text::same_text;
use crate::window_wallpaper;
use crate::window_wallpaper::{picture_frame, picture_gravity, PictureLayout, FIXED};
use vstd::prelude::*;

verus! {

/// The player of one file, shared by every view showing it; the numbers stand for the native
/// player and looper.
pub struct SharedPlayer {
    pub path: String,
    pub player: u64,
    pub looper: u64,
    /// How many views use it.
    pub users: usize,
}

/// One video backdrop view.
pub struct VideoView {
    /// The handle of the native view.
    pub view: u64,
    pub path: String,
    pub player: u64,
    pub only_on_power: bool,
    pub wants_play: bool,
}

/// What giving back a player led to.
#[derive(Clone, Copy, Debug, PartialEq, Eq, Structural)]
pub enum Released {
    /// There is no player for that file.
    Unknown,
    /// Other views still use it.
    StillShared,
    /// Nobody uses it any more: it is to be stopped and let go.
    Retired { player: u64, looper: u64 },
}

/// What is to be done to a player, in this order.
#[derive(Clone, Copy, Debug, PartialEq, Eq, Structural)]
pub struct PlayerAction {
    pub play: bool,
    pub pause: bool,
    /// Go back to the first frame.
    pub rewind: bool,
}

/// How many of `views` show the file at `path`.
pub open spec fn path_users(views: Seq<VideoView>, path: Seq<char>) -> int
    decreases views.len(),
{
    if views.len() == 0 {
        0
    } else {
        path_users(views.drop_last(), path) + if views.last().path@ == path {
            1int
        } else {
            0
        }
    }
}

/// Where the player of the file at `path` is, looking from index `from` on.
pub open spec fn player_index_from(
    players: Seq<SharedPlayer>,
    path: Seq<char>,
    from: int,
) -> Option<int>
    decreases players.len() - from,
{
    if from < 0 || from >= players.len() {
        None
    } else if players[from].path@ == path {
        Some(from)
    } else {
        player_index_from(players, path, from + 1)
    }
}

pub open spec fn player_index(players: Seq<SharedPlayer>, path: Seq<char>) -> Option<int> {
    player_index_from(players, path, 0)
}

proof fn lemma_player_index_skips(players: Seq<SharedPlayer>, path: Seq<char>, from: int, to: int)
    requires
        0 <= from <= to <= players.len(),
        forall|i: int| from <= i < to ==> (#[trigger] players[i]).path@ != path,
    ensures
        player_index_from(players, path, from) == player_index_from(players, path, to),
    decreases to - from,
{
    if from < to {
        lemma_player_index_skips(players, path, from + 1, to);
    }
}

proof fn lemma_player_index(players: Seq<SharedPlayer>, path: Seq<char>, from: int)
    requires
        0 <= from <= players.len(),
    ensures
        match player_index_from(players, path, from) {
            Some(i) => from <= i < players.len() && players[i].path@ == path,
            None => forall|i: int| from <= i < players.len() ==> (#[trigger] players[i]).path@ != path,
        },
    decreases players.len() - from,
{
    if from < players.len() && players[from].path@ != path {
        lemma_player_index(players, path, from + 1);
    }
}

/// Where the view with this handle is, looking from index `from` on.
pub open spec fn view_index_from(views: Seq<VideoView>, view: u64, from: int) -> Option<int>
    decreases views.len() - from,
{
    if from < 0 || from >= views.len() {
        None
    } else if views[from].view == view {
        Some(from)
    } else {
        view_index_from(views, view, from + 1)
    }
}

pub open spec fn view_index(views: Seq<VideoView>, view: u64) -> Option<int> {
    view_index_from(views, view, 0)
}

proof fn lemma_view_index_skips(views: Seq<VideoView>, view: u64, from: int, to: int)
    requires
        0 <= from <= to <= views.len(),
        forall|i: int| from <= i < to ==> (#[trigger] views[i]).view != view,
    ensures
        view_index_from(views, view, from) == view_index_from(views, view, to),
    decreases to - from,
{
    if from < to {
        lemma_view_index_skips(views, view, from + 1, to);
    }
}

proof fn lemma_view_index(views: Seq<VideoView>, view: u64, from: int)
    requires
        0 <= from <= views.len(),
    ensures
        match view_index_from(views, view, from) {
            Some(i) => from <= i < views.len() && views[i].view == view,
            None => forall|i: int| from <= i < views.len() ==> (#[trigger] views[i]).view != view,
        },
    decreases views.len() - from,
{
    if from < views.len() && views[from].view != view {
        lemma_view_index(views, view, from + 1);
    }
}

proof fn lemma_users_push(views: Seq<VideoView>, entry: VideoView, path: Seq<char>)
    ensures
        path_users(views.push(entry), path) == path_users(views, path) + if entry.path@ == path {
            1int
        } else {
            0
        },
{
    assert(views.push(entry).drop_last() =~= views);
}

proof fn lemma_users_remove(views: Seq<VideoView>, i: int, path: Seq<char>)
    requires
        0 <= i < views.len(),
    ensures
        path_users(views.remove(i), path) == path_users(views, path) - if views[i].path@ == path {
            1int
        } else {
            0
        },
    decreases views.len(),
{
    if i == views.len() - 1 {
        assert(views.remove(i) =~= views.drop_last());
    } else {
        lemma_users_remove(views.drop_last(), i, path);
        assert(views.remove(i).drop_last() =~= views.drop_last().remove(i));
        assert(views.remove(i).last() == views.last());
    }
}

proof fn lemma_users_same_paths(a: Seq<VideoView>, b: Seq<VideoView>, path: Seq<char>)
    requires
        a.len() == b.len(),
        forall|i: int| 0 <= i < a.len() ==> (#[trigger] a[i]).path@ == b[i].path@,
    ensures
        path_users(a, path) == path_users(b, path),
    decreases a.len(),
{
    if a.len() > 0 {
        lemma_users_same_paths(a.drop_last(), b.drop_last(), path);
    }
}

proof fn lemma_users_bounds(views: Seq<VideoView>, path: Seq<char>)
    ensures
        0 <= path_users(views, path) <= views.len(),
    decreases views.len(),
{
    if views.len() > 0 {
        lemma_users_bounds(views.drop_last(), path);
    }
}

/// A file nobody shows has no users.
proof fn lemma_no_users(views: Seq<VideoView>, path: Seq<char>)
    requires
        forall|i: int| 0 <= i < views.len() ==> (#[trigger] views[i]).path@ != path,
    ensures
        path_users(views, path) == 0,
    decreases views.len(),
{
    if views.len() > 0 {
        lemma_no_users(views.drop_last(), path);
    }
}

/// Whether any view showing `player` wants it to play.
pub open spec fn any_wants(views: Seq<VideoView>, player: u64) -> bool {
    exists|i: int|
        0 <= i < views.len() && (#[trigger] views[i]).player == player && views[i].wants_play
}

/// One player per file, as the files were first shown.
pub struct PlayerPool {
    players: Vec<SharedPlayer>,
}

/// No file and no native player occurs twice, and every player is used.
pub open spec fn players_wf(players: Seq<SharedPlayer>) -> bool {
    &&& forall|i: int, j: int|
        0 <= i < j < players.len() ==> (#[trigger] players[i]).path@ != (
        #[trigger] players[j]).path@
    &&& forall|i: int, j: int|
        0 <= i < j < players.len() ==> (#[trigger] players[i]).player != (
        #[trigger] players[j]).player
    &&& forall|i: int| 0 <= i < players.len() ==> (#[trigger] players[i]).users >= 1
}

/// Whether `player` is one of the native players.
pub open spec fn is_known(players: Seq<SharedPlayer>, player: u64) -> bool {
    exists|i: int| 0 <= i < players.len() && (#[trigger] players[i]).player == player
}

impl PlayerPool {
    pub closed spec fn players(self) -> Seq<SharedPlayer> {
        self.players@
    }

    pub open spec fn wf(self) -> bool {
        players_wf(self.players())
    }

    pub open spec fn find(self, path: Seq<char>) -> Option<int> {
        player_index(self.players(), path)
    }

    pub fn new() -> (pool: PlayerPool)
        ensures
            pool.wf(),
            pool.players() == Seq::<SharedPlayer>::empty(),
    {
        PlayerPool { players: Vec::new() }
    }

    fn position(&self, path: &str) -> (index: Option<usize>)
        ensures
            match index {
                Some(i) => i < self.players().len() && self.find(path@) == Some(i as int)
                    && self.players()[i as int].path@ == path@,
                None => self.find(path@) is None && forall|i: int|
                    0 <= i < self.players().len() ==> (#[trigger] self.players()[i]).path@ != path@,
            },
    {
        let mut i: usize = 0;
        while i < self.players.len()
            invariant
                i <= self.players.len(),
                forall|j: int| 0 <= j < i ==> (#[trigger] self.players()[j]).path@ != path@,
            decreases self.players.len() - i,
        {
            if same_text(self.players[i].path.as_str(), path) {
                proof {
                    lemma_player_index_skips(self.players(), path@, 0, i as int);
                }
                return Some(i);
            }
            i = i + 1;
        }
        proof {
            lemma_player_index_skips(self.players(), path@, 0, i as int);
        }
        None
    }

    /// Whether a player of the file at `path` is there to share.
    pub fn has_player(&self, path: &str) -> (there: bool)
        ensures
            there == (self.find(path@) is Some),
    {
        self.position(path).is_some()
    }

    /// Whether `player` is one of the native players.
    pub fn knows_player(&self, player: u64) -> (known: bool)
        ensures
            known == is_known(self.players(), player),
    {
        let mut i: usize = 0;
        while i < self.players.len()
            invariant
                i <= self.players().len(),
                forall|j: int| 0 <= j < i ==> (#[trigger] self.players()[j]).player != player,
            decreases self.players.len() - i,
        {
            if self.players[i].player == player {
                assert(self.players()[i as int].player == player);
                return true;
            }
            i = i + 1;
        }
        false
    }

    /// Takes a share of the player of the file at `path`: the one that is there, or `made`, the
    /// native player and looper just made for it. `None` when there is neither.
    pub fn acquire_player(&mut self, path: &str, made: Option<(u64, u64)>) -> (player: Option<u64>)
        requires
            old(self).wf(),
            old(self).find(path@) is Some ==> old(self).players()[old(self).find(path@)->0].users
                < usize::MAX,
            old(self).find(path@) is None && made is Some ==> !is_known(
                old(self).players(),
                (made->0).0,
            ),
        ensures
            final(self).wf(),
            match (old(self).find(path@), made) {
                (Some(i), _) => {
                    let shared = old(self).players()[i];
                    &&& player == Some(shared.player)
                    &&& final(self).players() == old(self).players().update(
                        i,
                        SharedPlayer { users: (shared.users + 1) as usize, ..shared },
                    )
                },
                (None, Some((native, looper))) => {
                    &&& player == Some(native)
                    &&& final(self).players().len() == old(self).players().len() + 1
                    &&& final(self).players().drop_last() == old(self).players()
                    &&& final(self).players().last().path@ == path@
                    &&& final(self).players().last().player == native
                    &&& final(self).players().last().looper == looper
                    &&& final(self).players().last().users == 1
                },
                (None, None) => player is None && final(self).players() == old(self).players(),
            },
    {
        match self.position(path) {
            Some(i) => {
                self.players[i].users = self.players[i].users + 1;
                Some(self.players[i].player)
            },
            None => match made {
                Some((native, looper)) => {
                    self.players.push(
                        SharedPlayer { path: path.to_owned(), player: native, looper, users: 1 },
                    );
                    assert(self.players().drop_last() =~= old(self).players());
                    Some(native)
                },
                None => None,
            },
        }
    }

    /// Gives back a share of the player of the file at `path`.
    pub fn release_player(&mut self, path: &str) -> (released: Released)
        requires
            old(self).wf(),
        ensures
            final(self).wf(),
            match old(self).find(path@) {
                None => released == Released::Unknown && final(self).players() == old(self).players(),
                Some(i) => {
                    let shared = old(self).players()[i];
                    if shared.users > 1 {
                        &&& released == Released::StillShared
                        &&& final(self).players() == old(self).players().update(
                            i,
                            SharedPlayer { users: (shared.users - 1) as usize, ..shared },
                        )
                    } else {
                        &&& released == Released::Retired {
                            player: shared.player,
                            looper: shared.looper,
                        }
                        &&& final(self).players() == old(self).players().remove(i)
                    }
                },
            },
    {
        match self.position(path) {
            Some(i) => {
                assert(self.players()[i as int].users >= 1);
                if self.players[i].users > 1 {
                    self.players[i].users = self.players[i].users - 1;
                    Released::StillShared
                } else {
                    let retired = self.players.remove(i);
                    Released::Retired { player: retired.player, looper: retired.looper }
                }
            },
            None => Released::Unknown,
        }
    }
}

/// Every video backdrop view, the players they share, and whether the displays are asleep.
pub struct VideoBackdrop {
    views: Vec<VideoView>,
    pool: PlayerPool,
    /// From the workspace's sleep and wake notifications.
    screens_asleep: bool,
}

/// What taking a view away leaves to be done.
#[derive(Clone, Copy, Debug, PartialEq, Eq, Structural)]
pub struct Detached {
    pub player: u64,
    /// Whether another view still wants the player to play.
    pub wanted: bool,
    pub released: Released,
}

/// Whether the player of `view`'s file is in the pool and is the one `view` plays.
pub open spec fn has_its_player(players: Seq<SharedPlayer>, view: VideoView) -> bool {
    exists|j: int|
        0 <= j < players.len() && (#[trigger] players[j]).path@ == view.path@ && players[j].player
            == view.player
}

/// A view has its player still where every player of its file went to another index and stayed the
/// same.
proof fn lemma_still_has_its_player(
    before: Seq<SharedPlayer>,
    after: Seq<SharedPlayer>,
    view: VideoView,
    moved_to: spec_fn(int) -> int,
)
    requires
        has_its_player(before, view),
        forall|k: int|
            0 <= k < before.len() && (#[trigger] before[k]).path@ == view.path@ ==> 0 <= moved_to(k)
                < after.len() && after[moved_to(k)].path@ == before[k].path@
                && after[moved_to(k)].player == before[k].player,
    ensures
        has_its_player(after, view),
{
    let k = choose|k: int|
        0 <= k < before.len() && (#[trigger] before[k]).path@ == view.path@ && before[k].player
            == view.player;
    assert(after[moved_to(k)].path@ == view.path@);
}

/// Whether `after` is `before` with `view` added, playing the file at `path` with `player`: a
/// further share of the player that was there, or the first of one just made.
pub open spec fn view_added(
    before: VideoBackdrop,
    after: VideoBackdrop,
    view: u64,
    path: Seq<char>,
    player: u64,
    made: Option<(u64, u64)>,
    only_on_power: bool,
) -> bool {
    let added = after.views().last();
    &&& after.views().len() == before.views().len() + 1
    &&& after.views().drop_last() == before.views()
    &&& added.view == view
    &&& added.path@ == path
    &&& added.player == player
    &&& added.only_on_power == only_on_power
    &&& !added.wants_play
    &&& match before.player_at(path) {
        Some(j) => {
            let shared = before.players()[j];
            after.players() == before.players().update(
                j,
                SharedPlayer { users: (shared.users + 1) as usize, ..shared },
            )
        },
        None => {
            let shared = after.players().last();
            &&& after.players().len() == before.players().len() + 1
            &&& after.players().drop_last() == before.players()
            &&& shared.path@ == path
            &&& shared.player == (made->0).0
            &&& shared.looper == (made->0).1
            &&& shared.users == 1
        },
    }
}

/// Whether `after` is `before` without `view`, and `detached` says what became of its player: it
/// loses a share, or goes with its last view.
pub open spec fn view_taken(
    before: VideoBackdrop,
    after: VideoBackdrop,
    view: u64,
    detached: Detached,
) -> bool {
    let i = before.find(view)->0;
    let gone = before.views()[i];
    let j = before.player_at(gone.path@)->0;
    let shared = before.players()[j];
    &&& before.find(view) is Some
    &&& after.views() == before.views().remove(i)
    &&& detached.player == gone.player
    &&& detached.wanted == any_wants(after.views(), gone.player)
    &&& before.player_at(gone.path@) is Some
    &&& shared.player == gone.player
    &&& if path_users(after.views(), gone.path@) > 0 {
        &&& detached.released == Released::StillShared
        &&& after.players() == before.players().update(
            j,
            SharedPlayer { users: (shared.users - 1) as usize, ..shared },
        )
    } else {
        &&& detached.released == Released::Retired { player: shared.player, looper: shared.looper }
        &&& after.players() == before.players().remove(j)
    }
}

impl VideoBackdrop {
    /// No view occurs twice, every view plays the one player of its file, and a player counts
    /// exactly the views that show its file.
    pub open spec fn wf(self) -> bool {
        &&& players_wf(self.players())
        &&& forall|i: int, j: int|
            0 <= i < j < self.views().len() ==> (#[trigger] self.views()[i]).view != (
            #[trigger] self.views()[j]).view
        &&& forall|i: int|
            0 <= i < self.views().len() ==> has_its_player(
                self.players(),
                #[trigger] self.views()[i],
            )
        &&& forall|j: int|
            0 <= j < self.players().len() ==> (#[trigger] self.players()[j]).users
                == path_users(self.views(), self.players()[j].path@)
    }

    pub closed spec fn views(self) -> Seq<VideoView> {
        self.views@
    }

    /// The players the views share.
    pub closed spec fn players(self) -> Seq<SharedPlayer> {
        self.pool.players()
    }

    /// Whether the displays are asleep.
    pub closed spec fn asleep(self) -> bool {
        self.screens_asleep
    }

    /// The index of the player of the file at `path`.
    pub open spec fn player_at(self, path: Seq<char>) -> Option<int> {
        player_index(self.players(), path)
    }

    pub open spec fn find(self, view: u64) -> Option<int> {
        view_index(self.views(), view)
    }

    pub fn new() -> (backdrop: VideoBackdrop)
        ensures
            backdrop.wf(),
            backdrop.views() == Seq::<VideoView>::empty(),
            backdrop.players() == Seq::<SharedPlayer>::empty(),
            !backdrop.asleep(),
    {
        VideoBackdrop {
            views: Vec::new(),
            pool: PlayerPool::new(),
            screens_asleep: false,
        }
    }

    fn position(&self, view: u64) -> (index: Option<usize>)
        ensures
            match index {
                Some(i) => i < self.views().len() && self.find(view) == Some(i as int)
                    && self.views()[i as int].view == view,
                None => self.find(view) is None && forall|i: int|
                    0 <= i < self.views().len() ==> (#[trigger] self.views()[i]).view != view,
            },
    {
        let mut i: usize = 0;
        while i < self.views.len()
            invariant
                i <= self.views().len(),
                forall|j: int| 0 <= j < i ==> (#[trigger] self.views()[j]).view != view,
            decreases self.views.len() - i,
        {
            if self.views[i].view == view {
                proof {
                    lemma_view_index_skips(self.views(), view, 0, i as int);
                }
                return Some(i);
            }
            i = i + 1;
        }
        proof {
            lemma_view_index_skips(self.views(), view, 0, i as int);
        }
        None
    }

    /// Whether the displays are asleep.
    pub fn screens_asleep(&self) -> (asleep: bool)
        ensures
            asleep == self.asleep(),
    {
        self.screens_asleep
    }

    /// Whether a player of the file at `path` is there to share.
    pub fn has_player(&self, path: &str) -> (there: bool)
        ensures
            there == (self.player_at(path@) is Some),
    {
        self.pool.has_player(path)
    }

    /// Whether `player` is one of the native players.
    pub fn knows_player(&self, player: u64) -> (known: bool)
        ensures
            known == is_known(self.players(), player),
    {
        self.pool.knows_player(player)
    }

    /// Whether `view` is there.
    pub fn contains(&self, view: u64) -> (there: bool)
        ensures
            there == (self.find(view) is Some),
    {
        self.position(view).is_some()
    }

    /// Adds a view playing the file at `path` and returns its player: the one other views share, or
    /// `made`, the native player and looper just made for the file. `None`, with nothing changed,
    /// when there is neither.
    pub fn create_view(
        &mut self,
        view: u64,
        path: &str,
        made: Option<(u64, u64)>,
        only_on_power: bool,
    ) -> (player: Option<u64>)
        requires
            old(self).wf(),
            old(self).find(view) is None,
            old(self).views().len() < usize::MAX,
            old(self).player_at(path@) is None && made is Some ==> !is_known(
                old(self).players(),
                (made->0).0,
            ),
        ensures
            final(self).wf(),
            final(self).asleep() == old(self).asleep(),
            player == match (old(self).player_at(path@), made) {
                (Some(j), _) => Some(old(self).players()[j].player),
                (None, Some((native, looper))) => Some(native),
                (None, None) => None,
            },
            player is None ==> final(self).views() == old(self).views(),
            player is None ==> final(self).players() == old(self).players(),
            player is Some ==> view_added(
                *old(self),
                *final(self),
                view,
                path@,
                player->0,
                made,
                only_on_power,
            ),
    {
        proof {
            lemma_player_index(self.players(), path@, 0);
            lemma_users_bounds(self.views(), path@);
        }
        let ghost before = *self;
        let player = match self.pool.acquire_player(path, made) {
            Some(player) => player,
            None => {
                return None;
            },
        };
        self.views.push(
            VideoView { view, path: path.to_owned(), player, only_on_power, wants_play: false },
        );
        proof {
            let added = self.views().last();
            assert(self.views() =~= before.views().push(added));
            assert(self.views().drop_last() =~= before.views());
            lemma_view_index(before.views(), view, 0);
            match before.player_at(path@) {
                Some(j) => {
                    assert forall|i: int| 0 <= i < self.views().len() implies has_its_player(
                        self.players(),
                        #[trigger] self.views()[i],
                    ) by {
                        if i < before.views().len() {
                            assert(has_its_player(before.players(), before.views()[i]));
                            lemma_still_has_its_player(
                                before.players(),
                                self.players(),
                                before.views()[i],
                                |k: int| k,
                            );
                        } else {
                            assert(self.players()[j].path@ == added.path@);
                        }
                    }
                    assert forall|k: int| 0 <= k < self.players().len() implies (
                    #[trigger] self.players()[k]).users == path_users(
                        self.views(),
                        self.players()[k].path@,
                    ) by {
                        lemma_users_push(before.views(), added, self.players()[k].path@);
                        assert(self.players()[k].path == before.players()[k].path);
                        assert(before.players()[k].users == path_users(
                            before.views(),
                            before.players()[k].path@,
                        ));
                    }
                },
                None => {
                    let last = self.players().len() - 1;
                    assert forall|k: int| 0 <= k < last implies #[trigger] self.players()[k]
                        == before.players()[k] by {
                        assert(self.players().drop_last()[k] == before.players()[k]);
                    }
                    assert forall|i: int| 0 <= i < self.views().len() implies has_its_player(
                        self.players(),
                        #[trigger] self.views()[i],
                    ) by {
                        if i < before.views().len() {
                            assert(has_its_player(before.players(), before.views()[i]));
                            lemma_still_has_its_player(
                                before.players(),
                                self.players(),
                                before.views()[i],
                                |k: int| k,
                            );
                        } else {
                            assert(self.players()[last].path@ == added.path@);
                        }
                    }
                    assert forall|i: int| 0 <= i < before.views().len() implies (
                    #[trigger] before.views()[i]).path@ != path@ by {
                        assert(has_its_player(before.players(), before.views()[i]));
                    }
                    lemma_no_users(before.views(), path@);
                    assert forall|k: int| 0 <= k < self.players().len() implies (
                    #[trigger] self.players()[k]).users == path_users(
                        self.views(),
                        self.players()[k].path@,
                    ) by {
                        lemma_users_push(before.views(), added, self.players()[k].path@);
                        if k < last {
                            assert(self.players()[k] == before.players()[k]);
                            assert(before.players()[k].users == path_users(
                                before.views(),
                                before.players()[k].path@,
                            ));
                            assert(before.players()[k].path@ != path@);
                        }
                    }
                },
            }
        }
        Some(player)
    }

    /// Whether any view showing `player` wants it to play.
    pub fn player_wanted(&self, player: u64) -> (wanted: bool)
        ensures
            wanted == any_wants(self.views(), player),
    {
        let mut i: usize = 0;
        while i < self.views.len()
            invariant
                i <= self.views().len(),
                forall|j: int|
                    0 <= j < i ==> !((#[trigger] self.views()[j]).player == player
                        && self.views()[j].wants_play),
            decreases self.views.len() - i,
        {
            if self.views[i].player == player && self.views[i].wants_play {
                assert(self.views()[i as int].player == player);
                return true;
            }
            i = i + 1;
        }
        false
    }

    /// Takes `view` away and hands back its share of the player. Runs once: when the view is
    /// removed, or when it goes away without being removed; `None` when it was not, or no longer,
    /// there.
    pub fn detach(&mut self, view: u64) -> (detached: Option<Detached>)
        requires
            old(self).wf(),
        ensures
            final(self).wf(),
            final(self).asleep() == old(self).asleep(),
            final(self).find(view) is None,
            detached is Some <==> old(self).find(view) is Some,
            detached is None ==> final(self).views() == old(self).views(),
            detached is None ==> final(self).players() == old(self).players(),
            detached is Some ==> view_taken(*old(self), *final(self), view, detached->0),
    {
        let ghost before = *self;
        let i: usize = match self.position(view) {
            Some(i) => i,
            None => {
                return None;
            },
        };
        let gone = self.views.remove(i);
        let wanted = self.player_wanted(gone.player);
        let released = self.pool.release_player(gone.path.as_str());
        proof {
            let path = gone.path@;
            assert(self.views() == before.views().remove(i as int));
            assert forall|k: int| 0 <= k < self.views().len() implies #[trigger] self.views()[k]
                == before.views()[if k < i { k } else { k + 1 }] by {}
            assert forall|k: int| 0 <= k < self.views().len() implies (
            #[trigger] self.views()[k]).view != view by {
                assert(before.views()[i as int].view == view);
            }
            lemma_view_index_skips(self.views(), view, 0, self.views().len() as int);
            assert(has_its_player(before.players(), before.views()[i as int]));
            lemma_player_index(before.players(), path, 0);
            let j = before.player_at(path)->0;
            assert(before.players()[j].users == path_users(before.views(), path));
            lemma_users_remove(before.views(), i as int, path);
            if before.players()[j].users > 1 {
                assert forall|k: int| 0 <= k < self.players().len() implies (
                #[trigger] self.players()[k]).users == path_users(
                    self.views(),
                    self.players()[k].path@,
                ) by {
                    lemma_users_remove(before.views(), i as int, self.players()[k].path@);
                    assert(self.players()[k].path == before.players()[k].path);
                    assert(before.players()[k].users == path_users(
                        before.views(),
                        before.players()[k].path@,
                    ));
                }
                assert forall|k: int| 0 <= k < self.views().len() implies has_its_player(
                    self.players(),
                    #[trigger] self.views()[k],
                ) by {
                    let old_k = if k < i { k } else { k + 1 };
                    assert(has_its_player(before.players(), before.views()[old_k]));
                    lemma_still_has_its_player(
                        before.players(),
                        self.players(),
                        before.views()[old_k],
                        |m: int| m,
                    );
                }
            } else {
                assert forall|k: int| 0 <= k < self.players().len() implies (
                #[trigger] self.players()[k]).users == path_users(
                    self.views(),
                    self.players()[k].path@,
                ) by {
                    let old_k = if k < j { k } else { k + 1 };
                    assert(self.players()[k] == before.players()[old_k]);
                    lemma_users_remove(before.views(), i as int, self.players()[k].path@);
                    assert(before.players()[old_k].users == path_users(
                        before.views(),
                        before.players()[old_k].path@,
                    ));
                    assert(before.players()[j].path@ == path);
                }
                assert forall|k: int| 0 <= k < self.views().len() implies has_its_player(
                    self.players(),
                    #[trigger] self.views()[k],
                ) by {
                    let old_k = if k < i { k } else { k + 1 };
                    assert(has_its_player(before.players(), before.views()[old_k]));
                    if before.views()[old_k].path@ == path {
                        lemma_some_user(self.views(), path, k);
                    }
                    lemma_still_has_its_player(
                        before.players(),
                        self.players(),
                        before.views()[old_k],
                        |m: int|
                            if m < j {
                                m
                            } else {
                                m - 1
                            },
                    );
                }
            }
        }
        Some(Detached { player: gone.player, wanted, released })
    }
}

/// A file somebody shows has users.
proof fn lemma_some_user(views: Seq<VideoView>, path: Seq<char>, k: int)
    requires
        0 <= k < views.len(),
        views[k].path@ == path,
    ensures
        path_users(views, path) > 0,
    decreases views.len(),
{
    lemma_users_bounds(views.drop_last(), path);
    if k < views.len() - 1 {
        lemma_some_user(views.drop_last(), path, k);
    }
}

/// The backdrop with `view`'s entry replaced by one of the same view, file and player is well
/// formed still.
proof fn lemma_wf_update(before: VideoBackdrop, after: VideoBackdrop, i: int, entry: VideoView)
    requires
        before.wf(),
        0 <= i < before.views().len(),
        after.views() == before.views().update(i, entry),
        after.players() == before.players(),
        entry.view == before.views()[i].view,
        entry.path == before.views()[i].path,
        entry.player == before.views()[i].player,
    ensures
        after.wf(),
{
    assert forall|k: int| 0 <= k < after.views().len() implies has_its_player(
        after.players(),
        #[trigger] after.views()[k],
    ) by {
        assert(has_its_player(before.players(), before.views()[k]));
    }
    assert forall|k: int| 0 <= k < after.players().len() implies (
    #[trigger] after.players()[k]).users == path_users(
        after.views(),
        after.players()[k].path@,
    ) by {
        lemma_users_same_paths(before.views(), after.views(), after.players()[k].path@);
    }
}

impl VideoBackdrop {
    /// The file `view` plays.
    pub fn view_path(&self, view: u64) -> (path: Option<&str>)
        ensures
            path is Some <==> self.find(view) is Some,
            path is Some ==> path->0@ == self.views()[self.find(view)->0].path@,
    {
        match self.position(view) {
            Some(i) => Some(self.views[i].path.as_str()),
            None => None,
        }
    }

    /// Whether `view` moves on a charger only.
    pub fn only_on_power(&self, view: u64) -> (rule: Option<bool>)
        ensures
            rule == match self.find(view) {
                Some(i) => Some(self.views()[i].only_on_power),
                None => None,
            },
    {
        match self.position(view) {
            Some(i) => Some(self.views[i].only_on_power),
            None => None,
        }
    }

    /// Changes whether `view` moves on a charger only.
    pub fn set_only_on_power(&mut self, view: u64, only_on_power: bool)
        requires
            old(self).wf(),
        ensures
            final(self).wf(),
            final(self).players() == old(self).players(),
            final(self).asleep() == old(self).asleep(),
            final(self).views() == match old(self).find(view) {
                Some(i) => old(self).views().update(
                    i,
                    VideoView { only_on_power, ..old(self).views()[i] },
                ),
                None => old(self).views(),
            },
    {
        match self.position(view) {
            Some(i) => {
                self.views[i].only_on_power = only_on_power;
                proof {
                    lemma_wf_update(*old(self), *self, i as int, self.views()[i as int]);
                }
            },
            None => {},
        }
    }

    /// Takes over whether `view` may move, and returns its player and whether any view wants that
    /// player to play; `None` for a view that is not there.
    pub fn refresh(&mut self, view: u64, may_animate: bool) -> (playback: Option<(u64, bool)>)
        requires
            old(self).wf(),
        ensures
            final(self).wf(),
            final(self).players() == old(self).players(),
            final(self).asleep() == old(self).asleep(),
            match old(self).find(view) {
                Some(i) => {
                    let entry = old(self).views()[i];
                    &&& final(self).views() == old(self).views().update(
                        i,
                        VideoView { wants_play: may_animate, ..entry },
                    )
                    &&& playback == Some(
                        (entry.player, any_wants(final(self).views(), entry.player)),
                    )
                },
                None => playback is None && final(self).views() == old(self).views(),
            },
    {
        match self.position(view) {
            Some(i) => {
                self.views[i].wants_play = may_animate;
                proof {
                    lemma_wf_update(*old(self), *self, i as int, self.views()[i as int]);
                }
                let player = self.views[i].player;
                Some((player, self.player_wanted(player)))
            },
            None => None,
        }
    }

    /// The handle of every view.
    pub fn handles(&self) -> (handles: Vec<u64>)
        ensures
            handles@ == self.views().map_values(|entry: VideoView| entry.view),
    {
        let mut handles: Vec<u64> = Vec::new();
        let mut i: usize = 0;
        while i < self.views.len()
            invariant
                i <= self.views().len(),
                handles.len() == i,
                forall|j: int| 0 <= j < i ==> #[trigger] handles@[j] == self.views()[j].view,
            decreases self.views.len() - i,
        {
            handles.push(self.views[i].view);
            i = i + 1;
        }
        assert(handles@ =~= self.views().map_values(|entry: VideoView| entry.view));
        handles
    }

    /// Tracks the displays sleeping, and returns whether the notification asks a moving backdrop to
    /// be placed again because screens or Spaces changed.
    pub fn note_condition_notification(&mut self, notification: Condition) -> (replace: bool)
        requires
            old(self).wf(),
        ensures
            final(self).wf(),
            final(self).views() == old(self).views(),
            final(self).players() == old(self).players(),
            final(self).asleep() == match notification {
                Condition::ScreensDidSleep => true,
                Condition::ScreensDidWake => false,
                _ => old(self).asleep(),
            },
            replace <==> notification == Condition::ScreenParametersDidChange || notification
                == Condition::ActiveSpaceDidChange,
            final(self).asleep() == asleep_after(old(self).asleep(), notification),
            replace == asks_for_placing(notification),
    {
        match notification {
            Condition::ScreensDidSleep => {
                self.screens_asleep = true;
            },
            Condition::ScreensDidWake => {
                self.screens_asleep = false;
            },
            _ => {},
        }
        assert(self.views() == old(self).views() && self.players() == old(self).players());
        match notification {
            Condition::ScreenParametersDidChange => true,
            Condition::ActiveSpaceDidChange => true,
            _ => false,
        }
    }
}

/// What brings a player to play exactly while it is wanted.
pub open spec fn player_action(wanted: bool, playing: bool, reduce_motion: bool) -> PlayerAction {
    PlayerAction {
        play: wanted && !playing,
        pause: !wanted && playing,
        rewind: !wanted && reduce_motion,
    }
}

/// Plays a player while a view wants it to, and pauses it otherwise. Under Reduce Motion the paused
/// video goes back to its first frame, so the window shows a still picture.
pub fn update_player(wanted: bool, playing: bool, reduce_motion: bool) -> (action: PlayerAction)
    ensures
        action.play == (wanted && !playing),
        action.pause == (!wanted && playing),
        action.rewind == (!wanted && reduce_motion),
        action == player_action(wanted, playing, reduce_motion),
{
    if wanted {
        PlayerAction { play: !playing, pause: false, rewind: false }
    } else {
        PlayerAction { play: false, pause: playing, rewind: reduce_motion }
    }
}

/// What decides whether a moving backdrop may move.
#[derive(Clone, Copy, Debug, PartialEq, Eq, Structural)]
pub struct Conditions {
    /// The view is in a window.
    pub in_window: bool,
    pub app_active: bool,
    pub miniaturized: bool,
    /// The window's occlusion state, bits.
    pub occlusion: u64,
    pub screens_asleep: bool,
    pub low_power: bool,
    pub reduce_motion: bool,
    /// The computer runs on a charger.
    pub external_power: bool,
}

/// Whether the window's occlusion state says that some of it is visible.
pub open spec fn is_visible(occlusion: u64) -> bool {
    (occlusion / 2) % 2 == 1
}

/// Whether a moving backdrop may move: someone can see it, and nothing asks it to hold still.
pub open spec fn may_move(conditions: Conditions, only_on_power: bool) -> bool {
    &&& conditions.in_window && conditions.app_active && !conditions.miniaturized
    &&& is_visible(conditions.occlusion) && !conditions.screens_asleep
    &&& !conditions.low_power && !conditions.reduce_motion
    &&& !only_on_power || conditions.external_power
}

/// Whether a moving backdrop in a window may move right now: someone can see it, and nothing asks
/// it to hold still. The live backdrop moves under exactly the same rules.
pub fn window_may_animate(conditions: Conditions, only_on_power: bool) -> (moves: bool)
    ensures
        moves <==> {
            &&& conditions.in_window
            &&& conditions.app_active
            &&& !conditions.miniaturized
            &&& is_visible(conditions.occlusion)
            &&& !conditions.screens_asleep
            &&& !conditions.low_power
            &&& !conditions.reduce_motion
            &&& only_on_power ==> conditions.external_power
        },
        moves == may_move(conditions, only_on_power),
{
    let occlusion = conditions.occlusion;
    assert((occlusion & 2 != 0) == ((occlusion / 2) % 2 == 1)) by (bit_vector);
    conditions.in_window && conditions.app_active && !conditions.miniaturized && (occlusion & 2
        != 0) && !conditions.screens_asleep && !conditions.low_power && !conditions.reduce_motion
        && (!only_on_power || conditions.external_power)
}

/// Whether a power source of this name, or none, means a charger rather than a battery.
pub open spec fn means_charger(source: Option<Seq<char>>) -> bool {
    source is None || source->0 != "Battery Power"@
}

/// Whether the computer is running on a charger rather than its battery, by the name of the power
/// source; there is none on a desktop, which always is.
pub fn on_external_power(source: Option<&str>) -> (external: bool)
    ensures
        external <==> source is None || source->0@ != "Battery Power"@,
        external == means_charger(
            match source {
                Some(source) => Some(source@),
                None => None,
            },
        ),
{
    match source {
        Some(source) => !same_text(source, "Battery Power"),
        None => true,
    }
}

/// The video layer reaches this far past every edge of the area it covers, in units, so the blur's
/// transparent fringe falls outside the window instead of darkening its edges: 120 pixels, twice
/// the blur's radius.
pub const VIDEO_BLEED: i64 = 7864320;

/// A frame that reaches past every edge of `frame` by the blur's bleed.
pub open spec fn bled(frame: Rect) -> Rect {
    Rect {
        x: frame.x - VIDEO_BLEED,
        y: frame.y - VIDEO_BLEED,
        w: frame.w + 2 * VIDEO_BLEED,
        h: frame.h + 2 * VIDEO_BLEED,
    }
}

/// Whether `placed` is where the video goes: over the wallpaper picture's frame, filling it the same
/// way, with the blur's bleed past every edge. The bled frame is set by hand, so it follows no side
/// of the view.
pub open spec fn video_laid_out(
    placed: PictureLayout,
    layer: Rect,
    screen_frame: Rect,
    content: Rect,
    follows_screen: bool,
    cover: Option<Bounds>,
) -> bool {
    &&& placed.gravity == picture_gravity(follows_screen)
    &&& placed.autoresizing == FIXED
    &&& placed.frame@ == bled(picture_frame(layer, screen_frame, content, follows_screen, cover))
}

/// Places the video like the wallpaper picture, then lets it reach past every edge by the blur's
/// bleed so the edges stay as bright as the middle.
pub fn layout(
    layer: Bounds,
    screen_frame: Bounds,
    content: Bounds,
    follows_screen: bool,
    cover: Option<Bounds>,
) -> (placed: PictureLayout)
    requires
        layer.in_range(),
        screen_frame.in_range(),
        content.in_range(),
        cover is Some ==> cover->0.in_range(),
    ensures
        video_laid_out(placed, layer@, screen_frame@, content@, follows_screen, cover),
{
    let picture = window_wallpaper::layout(layer, screen_frame, content, follows_screen, cover);
    let frame = picture.frame;
    PictureLayout {
        gravity: picture.gravity,
        autoresizing: FIXED,
        frame: Bounds {
            origin: Point {
                x: Pixels { units: frame.origin.x.units - VIDEO_BLEED },
                y: Pixels { units: frame.origin.y.units - VIDEO_BLEED },
            },
            size: Size {
                width: Pixels { units: frame.size.width.units + VIDEO_BLEED * 2 },
                height: Pixels { units: frame.size.height.units + VIDEO_BLEED * 2 },
            },
        },
    }
}

/// The bleed never adds up: however often the video is laid out, its frame reaches past the
/// wallpaper picture's by the bleed on every side and no further, and does not resize by itself.
pub proof fn law_bleed_does_not_add_up(
    first: PictureLayout,
    again: PictureLayout,
    layer: Rect,
    screen_frame: Rect,
    content: Rect,
    follows_screen: bool,
    cover: Option<Bounds>,
)
    requires
        video_laid_out(first, layer, screen_frame, content, follows_screen, cover),
        video_laid_out(again, layer, screen_frame, content, follows_screen, cover),
    ensures
        ({
            let picture = picture_frame(layer, screen_frame, content, follows_screen, cover);
            &&& first.frame@ == again.frame@
            &&& again.frame@.x == picture.x - VIDEO_BLEED
            &&& again.frame@.y == picture.y - VIDEO_BLEED
            &&& again.frame@.right() == picture.right() + VIDEO_BLEED
            &&& again.frame@.bottom() == picture.bottom() + VIDEO_BLEED
            &&& picture.inside(again.frame@)
            &&& again.autoresizing == FIXED
        }),
{
}

/// What a moving backdrop is told about: the app coming to or leaving the front, a window hidden,
/// covered or minimised, the displays sleeping, Low Power Mode, Reduce Motion, and screens and
/// Spaces changing.
#[derive(Clone, Copy, Debug, PartialEq, Eq, Structural)]
pub enum Condition {
    ApplicationDidBecomeActive,
    ApplicationDidResignActive,
    ScreenParametersDidChange,
    OcclusionStateDidChange,
    WindowDidMiniaturize,
    WindowDidDeminiaturize,
    PowerStateDidChange,
    ScreensDidSleep,
    ScreensDidWake,
    AccessibilityDisplayOptionsDidChange,
    ActiveSpaceDidChange,
}

/// Whether the displays are asleep once this happened.
pub open spec fn asleep_after(asleep: bool, condition: Condition) -> bool {
    (asleep || condition == Condition::ScreensDidSleep) && condition != Condition::ScreensDidWake
}

/// Whether a moving backdrop is placed again because screens or Spaces changed.
pub open spec fn asks_for_placing(condition: Condition) -> bool {
    condition is ScreenParametersDidChange || condition is ActiveSpaceDidChange
}

/// Whether the workspace's notification center announces it, rather than the default one.
pub fn from_workspace(condition: Condition) -> (workspace: bool)
    ensures
        workspace <==> condition == Condition::ScreensDidSleep || condition
            == Condition::ScreensDidWake || condition
            == Condition::AccessibilityDisplayOptionsDidChange || condition
            == Condition::ActiveSpaceDidChange,
{
    match condition {
        Condition::ScreensDidSleep => true,
        Condition::ScreensDidWake => true,
        Condition::AccessibilityDisplayOptionsDidChange => true,
        Condition::ActiveSpaceDidChange => true,
        _ => false,
    }
}

/// Everything that decides whether the video can be seen or should move.
pub fn observe_conditions() -> (observed: Vec<Condition>)
    ensures
        observed@ == seq![
            Condition::ApplicationDidBecomeActive,
            Condition::ApplicationDidResignActive,
            Condition::ScreenParametersDidChange,
            Condition::OcclusionStateDidChange,
            Condition::WindowDidMiniaturize,
            Condition::WindowDidDeminiaturize,
            Condition::PowerStateDidChange,
            Condition::ScreensDidSleep,
            Condition::ScreensDidWake,
            Condition::AccessibilityDisplayOptionsDidChange,
            Condition::ActiveSpaceDidChange,
        ],
        forall|condition: Condition| #[trigger] observed@.contains(condition),
{
    let observed = vec![
        Condition::ApplicationDidBecomeActive,
        Condition::ApplicationDidResignActive,
        Condition::ScreenParametersDidChange,
        Condition::OcclusionStateDidChange,
        Condition::WindowDidMiniaturize,
        Condition::WindowDidDeminiaturize,
        Condition::PowerStateDidChange,
        Condition::ScreensDidSleep,
        Condition::ScreensDidWake,
        Condition::AccessibilityDisplayOptionsDidChange,
        Condition::ActiveSpaceDidChange,
    ];
    proof {
        assert forall|condition: Condition| #[trigger] observed@.contains(condition) by {
            let i: int = match condition {
                Condition::ApplicationDidBecomeActive => 0,
                Condition::ApplicationDidResignActive => 1,
                Condition::ScreenParametersDidChange => 2,
                Condition::OcclusionStateDidChange => 3,
                Condition::WindowDidMiniaturize => 4,
                Condition::WindowDidDeminiaturize => 5,
                Condition::PowerStateDidChange => 6,
                Condition::ScreensDidSleep => 7,
                Condition::ScreensDidWake => 8,
                Condition::AccessibilityDisplayOptionsDidChange => 9,
                Condition::ActiveSpaceDidChange => 10,
            };
            assert(observed@[i] == condition);
        }
    }
    observed
}

/// Windows showing the same file share one player, so they show the same frame, and windows showing
/// different files do not.
pub proof fn law_same_file_same_player(backdrop: VideoBackdrop, a: int, b: int)
    requires
        backdrop.wf(),
        0 <= a < backdrop.views().len(),
        0 <= b < backdrop.views().len(),
    ensures
        backdrop.views()[a].player == backdrop.views()[b].player <==> backdrop.views()[a].path@
            == backdrop.views()[b].path@,
{
    let players = backdrop.players();
    assert(has_its_player(players, backdrop.views()[a]));
    assert(has_its_player(players, backdrop.views()[b]));
    let i = choose|i: int|
        0 <= i < players.len() && (#[trigger] players[i]).path@ == backdrop.views()[a].path@
            && players[i].player == backdrop.views()[a].player;
    let j = choose|j: int|
        0 <= j < players.len() && (#[trigger] players[j]).path@ == backdrop.views()[b].path@
            && players[j].player == backdrop.views()[b].player;
    if i < j {
        assert(players[i].path@ != players[j].path@);
    } else if j < i {
        assert(players[j].path@ != players[i].path@);
    }
}

/// A player is there exactly while a view shows its file: the last view to leave retires it.
pub proof fn law_player_lives_while_shown(backdrop: VideoBackdrop, path: Seq<char>)
    requires
        backdrop.wf(),
    ensures
        backdrop.player_at(path) is Some <==> exists|i: int|
            0 <= i < backdrop.views().len() && (#[trigger] backdrop.views()[i]).path@ == path,
{
    let players = backdrop.players();
    lemma_player_index(players, path, 0);
    if backdrop.player_at(path) is Some {
        let j = backdrop.player_at(path)->0;
        assert(players[j].users == path_users(backdrop.views(), path));
        if forall|i: int|
            0 <= i < backdrop.views().len() ==> (#[trigger] backdrop.views()[i]).path@ != path {
            lemma_no_users(backdrop.views(), path);
        }
    }
    assert forall|i: int| 0 <= i < backdrop.views().len() && (#[trigger] backdrop.views()[i]).path@
        == path implies backdrop.player_at(path) is Some by {
        assert(has_its_player(players, backdrop.views()[i]));
    }
}

/// Taking away the view that was just added leaves the views and the players as they were.
pub proof fn law_detach_undoes_create(
    before: VideoBackdrop,
    added: VideoBackdrop,
    after: VideoBackdrop,
    view: u64,
    path: Seq<char>,
    player: u64,
    made: Option<(u64, u64)>,
    only_on_power: bool,
    detached: Detached,
)
    requires
        before.wf(),
        before.find(view) is None,
        before.views().len() < usize::MAX,
        added.wf(),
        view_added(before, added, view, path, player, made, only_on_power),
        view_taken(added, after, view, detached),
    ensures
        after.views() == before.views(),
        after.players() == before.players(),
        before.player_at(path) is Some ==> detached.released == Released::StillShared,
        before.player_at(path) is None ==> detached.released == (Released::Retired {
            player: (made->0).0,
            looper: (made->0).1,
        }),
{
    let last = before.views().len() as int;
    assert(added.views() =~= before.views().push(added.views().last()));
    lemma_view_index(before.views(), view, 0);
    lemma_view_index_skips(added.views(), view, 0, last);
    assert(added.find(view) == Some(last));
    assert(after.views() =~= before.views());
    lemma_player_index(before.players(), path, 0);
    lemma_player_index(added.players(), path, 0);
    lemma_users_bounds(before.views(), path);
    let j = added.player_at(path)->0;
    match before.player_at(path) {
        Some(i) => {
            assert(before.players()[i].users >= 1);
            assert(before.players()[i].users == path_users(before.views(), path));
            assert(added.players()[j].path == before.players()[j].path);
            if i < j {
                assert(before.players()[i].path@ != before.players()[j].path@);
            } else if j < i {
                assert(before.players()[j].path@ != before.players()[i].path@);
            }
            assert(after.players() =~= before.players());
        },
        None => {
            let n = before.players().len() as int;
            assert forall|k: int| 0 <= k < before.views().len() implies (
            #[trigger] before.views()[k]).path@ != path by {
                assert(has_its_player(before.players(), before.views()[k]));
            }
            lemma_no_users(before.views(), path);
            assert forall|k: int| 0 <= k < n implies (#[trigger] added.players()[k]).path@
                != path by {
                assert(added.players().drop_last()[k] == before.players()[k]);
            }
            lemma_player_index_skips(added.players(), path, 0, n);
            assert(j == n);
            assert(after.players() =~= before.players());
        },
    }
}

/// A window is visible while the second bit of its occlusion state is set, whatever the others are.
pub proof fn law_second_bit_tells_visible(occlusion: u64)
    ensures
        is_visible(occlusion) <==> occlusion & (1u64 << 1) != 0,
{
    assert((occlusion & (1u64 << 1) != 0) == ((occlusion / 2) % 2 == 1)) by (bit_vector);
}

/// The video reaches 120 pixels past every edge of where the wallpaper picture goes: past the screen
/// as it lies around the window's content when it is held against the screen, past the cover when
/// there is one, and past the layer otherwise. It never resizes by itself, is stretched when it is
/// held against the screen and fills its frame otherwise.
pub proof fn law_video_reaches_120_pixels_further(
    placed: PictureLayout,
    layer: Bounds,
    screen_frame: Bounds,
    content: Bounds,
    follows_screen: bool,
    cover: Option<Bounds>,
)
    requires
        video_laid_out(placed, layer@, screen_frame@, content@, follows_screen, cover),
    ensures
        placed.autoresizing == 0,
        follows_screen <==> placed.gravity == window_wallpaper::Gravity::Resize,
        !follows_screen <==> placed.gravity == window_wallpaper::Gravity::ResizeAspectFill,
        ({
            let left = placed.frame.origin.x.units + 120 * 65536;
            let bottom = placed.frame.origin.y.units + 120 * 65536;
            let width = placed.frame.size.width.units - 240 * 65536;
            let height = placed.frame.size.height.units - 240 * 65536;
            &&& follows_screen ==> {
                &&& left == screen_frame.origin.x.units - content.origin.x.units
                &&& bottom == screen_frame.origin.y.units - content.origin.y.units
                &&& width == screen_frame.size.width.units
                &&& height == screen_frame.size.height.units
            }
            &&& !follows_screen && cover is Some ==> {
                &&& left == cover->0.origin.x.units
                &&& bottom + height + cover->0.origin.y.units == layer.size.height.units
                &&& width == cover->0.size.width.units
                &&& height == cover->0.size.height.units
            }
            &&& !follows_screen && cover is None ==> {
                &&& left == layer.origin.x.units
                &&& bottom == layer.origin.y.units
                &&& width == layer.size.width.units
                &&& height == layer.size.height.units
            }
        }),
{
}

/// A file has a user for every view that shows it, and for no other.
pub proof fn law_every_view_of_a_file_is_a_user(
    views: Seq<VideoView>,
    further: VideoView,
    path: Seq<char>,
)
    ensures
        path_users(Seq::empty(), path) == 0,
        further.path@ == path ==> path_users(views.push(further), path) == path_users(views, path)
            + 1,
        further.path@ != path ==> path_users(views.push(further), path) == path_users(views, path),
{
    lemma_users_push(views, further, path);
}

/// A player is as often shared as there are views of its file, and no player is shared by none.
pub proof fn law_player_counts_its_views(backdrop: VideoBackdrop, j: int)
    requires
        backdrop.wf(),
        0 <= j < backdrop.players().len(),
    ensures
        backdrop.players()[j].users == path_users(backdrop.views(), backdrop.players()[j].path@),
        backdrop.players()[j].users >= 1,
        backdrop.player_at(backdrop.players()[j].path@) == Some(j),
{
    let players = backdrop.players();
    assert forall|i: int| 0 <= i < j implies (#[trigger] players[i]).path@ != players[j].path@ by {
    }
    lemma_player_index_skips(players, players[j].path@, 0, j);
}

/// No view is there twice, and every view plays the player that is there for its file.
pub proof fn law_view_plays_the_player_of_its_file(backdrop: VideoBackdrop, i: int)
    requires
        backdrop.wf(),
        0 <= i < backdrop.views().len(),
    ensures
        backdrop.find(backdrop.views()[i].view) == Some(i),
        backdrop.player_at(backdrop.views()[i].path@) is Some,
        backdrop.players()[backdrop.player_at(backdrop.views()[i].path@)->0].player
            == backdrop.views()[i].player,
{
    let views = backdrop.views();
    let players = backdrop.players();
    assert forall|k: int| 0 <= k < i implies (#[trigger] views[k]).view != views[i].view by {
    }
    lemma_view_index_skips(views, views[i].view, 0, i);
    assert(has_its_player(players, views[i]));
    let j = choose|j: int|
        0 <= j < players.len() && (#[trigger] players[j]).path@ == views[i].path@
            && players[j].player == views[i].player;
    law_player_counts_its_views(backdrop, j);
}

/// A path stands for the first player of its file, and for none where the file has no player.
pub proof fn law_path_finds_its_first_player(
    players: Seq<SharedPlayer>,
    path: Seq<char>,
    i: int,
)
    requires
        0 <= i <= players.len(),
        forall|j: int| 0 <= j < i ==> (#[trigger] players[j]).path@ != path,
        i < players.len() ==> players[i].path@ == path,
    ensures
        i < players.len() ==> player_index(players, path) == Some(i),
        i == players.len() ==> player_index(players, path) is None,
{
    lemma_player_index_skips(players, path, 0, i);
}

/// A handle stands for the first view that has it, and for none where no view has it.
pub proof fn law_handle_finds_its_first_view(views: Seq<VideoView>, view: u64, i: int)
    requires
        0 <= i <= views.len(),
        forall|j: int| 0 <= j < i ==> (#[trigger] views[j]).view != view,
        i < views.len() ==> views[i].view == view,
    ensures
        i < views.len() ==> view_index(views, view) == Some(i),
        i == views.len() ==> view_index(views, view) is None,
{
    lemma_view_index_skips(views, view, 0, i);
}

/// A player is wanted as soon as one view that plays it wants to, and not by views that play another
/// one or hold still.
pub proof fn law_one_view_is_enough_to_play(views: Seq<VideoView>, player: u64)
    ensures
        forall|i: int|
            0 <= i < views.len() && (#[trigger] views[i]).player == player && views[i].wants_play
                ==> any_wants(views, player),
        (forall|i: int|
            0 <= i < views.len() ==> (#[trigger] views[i]).player != player
                || !views[i].wants_play) ==> !any_wants(views, player),
{
}

/// A native player is known as soon as one file has it.
pub proof fn law_known_players_are_those_of_files(players: Seq<SharedPlayer>, player: u64)
    ensures
        forall|i: int|
            0 <= i < players.len() && (#[trigger] players[i]).player == player ==> is_known(
                players,
                player,
            ),
        (forall|i: int| 0 <= i < players.len() ==> (#[trigger] players[i]).player != player)
            ==> !is_known(players, player),
{
}

/// A view that is added is the last, holds still, and plays its file; the views before it stay as
/// they are. A file that had a player keeps it, used once more; another gets the one just made, used
/// once. Nothing else changes about the players.
pub proof fn law_added_view_takes_one_share(
    before: VideoBackdrop,
    after: VideoBackdrop,
    view: u64,
    path: Seq<char>,
    player: u64,
    made: Option<(u64, u64)>,
    only_on_power: bool,
)
    requires
        before.wf(),
        before.views().len() < usize::MAX,
        view_added(before, after, view, path, player, made, only_on_power),
    ensures
        ({
            let added = after.views()[before.views().len() as int];
            &&& after.views().len() == before.views().len() + 1
            &&& forall|i: int|
                0 <= i < before.views().len() ==> #[trigger] after.views()[i] == before.views()[i]
            &&& added.view == view
            &&& added.path@ == path
            &&& added.player == player
            &&& added.only_on_power == only_on_power
            &&& !added.wants_play
        }),
        before.player_at(path) is Some ==> {
            let j = before.player_at(path)->0;
            &&& after.players().len() == before.players().len()
            &&& after.players()[j].users == before.players()[j].users + 1
            &&& after.players()[j].player == before.players()[j].player
            &&& after.players()[j].looper == before.players()[j].looper
            &&& after.players()[j].path == before.players()[j].path
            &&& forall|i: int|
                0 <= i < before.players().len() && i != j ==> #[trigger] after.players()[i]
                    == before.players()[i]
        },
        before.player_at(path) is None ==> {
            let shared = after.players()[before.players().len() as int];
            &&& after.players().len() == before.players().len() + 1
            &&& shared.path@ == path
            &&& shared.player == (made->0).0
            &&& shared.looper == (made->0).1
            &&& shared.users == 1
            &&& forall|i: int|
                0 <= i < before.players().len() ==> #[trigger] after.players()[i]
                    == before.players()[i]
        },
{
    assert forall|i: int| 0 <= i < before.views().len() implies #[trigger] after.views()[i]
        == before.views()[i] by {
        assert(after.views().drop_last()[i] == before.views()[i]);
    }
    lemma_player_index(before.players(), path, 0);
    lemma_users_bounds(before.views(), path);
    if before.player_at(path) is Some {
        let j = before.player_at(path)->0;
        assert(before.players()[j].users == path_users(before.views(), path));
    } else {
        assert forall|i: int| 0 <= i < before.players().len() implies #[trigger] after.players()[i]
            == before.players()[i] by {
            assert(after.players().drop_last()[i] == before.players()[i]);
        }
    }
}

/// A view that is taken away leaves the others in their order. Its player is wanted still exactly
/// when another view of it wants to play; it is used once less while another view shows the file, and
/// is let go with the last one. Nothing else changes about the players.
pub proof fn law_taken_view_gives_back_one_share(
    before: VideoBackdrop,
    after: VideoBackdrop,
    view: u64,
    detached: Detached,
)
    requires
        before.wf(),
        view_taken(before, after, view, detached),
    ensures
        before.find(view) is Some,
        ({
            let i = before.find(view)->0;
            let gone = before.views()[i];
            let j = before.player_at(gone.path@)->0;
            let shared = before.players()[j];
            &&& gone.view == view
            &&& after.views().len() == before.views().len() - 1
            &&& forall|k: int| 0 <= k < i ==> #[trigger] after.views()[k] == before.views()[k]
            &&& forall|k: int|
                i <= k < after.views().len() ==> #[trigger] after.views()[k] == before.views()[k
                    + 1]
            &&& detached.player == gone.player == shared.player
            &&& detached.wanted <==> exists|k: int|
                0 <= k < after.views().len() && (#[trigger] after.views()[k]).player == gone.player
                    && after.views()[k].wants_play
            &&& (exists|k: int|
                0 <= k < after.views().len() && (#[trigger] after.views()[k]).path@ == gone.path@)
                ==> {
                &&& detached.released == Released::StillShared
                &&& after.players().len() == before.players().len()
                &&& after.players()[j].users == shared.users - 1
                &&& after.players()[j].player == shared.player
                &&& after.players()[j].looper == shared.looper
                &&& after.players()[j].path == shared.path
                &&& forall|k: int|
                    0 <= k < before.players().len() && k != j ==> #[trigger] after.players()[k]
                        == before.players()[k]
            }
            &&& (forall|k: int|
                0 <= k < after.views().len() ==> (#[trigger] after.views()[k]).path@ != gone.path@)
                ==> {
                &&& detached.released == Released::Retired {
                    player: shared.player,
                    looper: shared.looper,
                }
                &&& after.players() == before.players().remove(j)
            }
        }),
{
    let i = before.find(view)->0;
    lemma_view_index(before.views(), view, 0);
    let gone = before.views()[i];
    let j = before.player_at(gone.path@)->0;
    lemma_player_index(before.players(), gone.path@, 0);
    assert(before.players()[j].users == path_users(before.views(), gone.path@));
    if exists|k: int|
        0 <= k < after.views().len() && (#[trigger] after.views()[k]).path@ == gone.path@ {
        let k = choose|k: int|
            0 <= k < after.views().len() && (#[trigger] after.views()[k]).path@ == gone.path@;
        lemma_some_user(after.views(), gone.path@, k);
        lemma_users_remove(before.views(), i, gone.path@);
    } else {
        lemma_no_users(after.views(), gone.path@);
    }
}

/// A backdrop holds still in no window, while the app is not in front, in a window that is minimised
/// or wholly covered, while the displays sleep, in Low Power Mode and under Reduce Motion, and, when
/// it is to move on a charger only, on the battery. In all other cases it moves.
pub proof fn law_backdrop_moves_only_where_it_is_seen(
    conditions: Conditions,
    only_on_power: bool,
)
    ensures
        !conditions.in_window ==> !may_move(conditions, only_on_power),
        !conditions.app_active ==> !may_move(conditions, only_on_power),
        conditions.miniaturized ==> !may_move(conditions, only_on_power),
        conditions.occlusion & 2 == 0 ==> !may_move(conditions, only_on_power),
        conditions.screens_asleep ==> !may_move(conditions, only_on_power),
        conditions.low_power ==> !may_move(conditions, only_on_power),
        conditions.reduce_motion ==> !may_move(conditions, only_on_power),
        only_on_power && !conditions.external_power ==> !may_move(conditions, only_on_power),
        conditions.in_window && conditions.app_active && !conditions.miniaturized
            && conditions.occlusion & 2 != 0 && !conditions.screens_asleep && !conditions.low_power
            && !conditions.reduce_motion && (conditions.external_power || !only_on_power)
            ==> may_move(conditions, only_on_power),
{
    let occlusion = conditions.occlusion;
    assert((occlusion & 2 != 0) == ((occlusion / 2) % 2 == 1)) by (bit_vector);
}

/// The rule about the charger only ever stops a backdrop: one that may move under it may move without
/// it, and on a charger it makes no difference.
pub proof fn law_charger_rule_only_stops(conditions: Conditions)
    ensures
        may_move(conditions, true) ==> may_move(conditions, false),
        conditions.external_power ==> may_move(conditions, true) == may_move(conditions, false),
{
}

/// After what is done to it a player plays exactly while it is wanted; nothing is done to one that
/// does so already, except that one that is not wanted under Reduce Motion goes back to its first
/// frame, and no other does.
pub proof fn law_player_plays_while_wanted(wanted: bool, playing: bool, reduce_motion: bool)
    ensures
        ({
            let action = player_action(wanted, playing, reduce_motion);
            &&& ((playing || action.play) && !action.pause) == wanted
            &&& wanted == playing ==> !action.play && !action.pause
            &&& !(action.play && action.pause)
            &&& action.rewind <==> reduce_motion && !wanted
        }),
{
}

/// The displays are asleep from the moment they go to sleep until they wake, whatever else happens.
pub proof fn law_displays_sleep_until_they_wake(asleep: bool, condition: Condition)
    ensures
        asleep_after(asleep, Condition::ScreensDidSleep),
        !asleep_after(asleep, Condition::ScreensDidWake),
        condition != Condition::ScreensDidSleep && condition != Condition::ScreensDidWake
            ==> asleep_after(asleep, condition) == asleep,
{
}

/// Only a change of the screens or of the Space places a backdrop again.
pub proof fn law_screens_and_spaces_place_the_backdrop(condition: Condition)
    ensures
        asks_for_placing(Condition::ScreenParametersDidChange),
        asks_for_placing(Condition::ActiveSpaceDidChange),
        asks_for_placing(condition) ==> condition == Condition::ScreenParametersDidChange
            || condition == Condition::ActiveSpaceDidChange,
{
}

/// A computer is on its battery exactly when its power source says so.
pub proof fn law_only_the_battery_is_no_charger(source: Seq<char>)
    ensures
        means_charger(None),
        !means_charger(Some("Battery Power"@)),
        source != "Battery Power"@ ==> means_charger(Some(source)),
{
}

} // verus!
