# jotter

The logic of a Jupyter notebook editor for the terminal, verified with Verus.

A notebook session is one value, `App`, beside the render cache `Rendered`.
Keys, pointer events and kernel events go in; what the session asks of its host
(run code, write a file, talk to nvim) comes out as a list of effects. Each
operation's contract says what the next session is, over a model of the whole
state.

- `text`, `json`, `ids`, `keys`, `paths`: values that everything is made of
- `notebook`, `cellops`, `edits`, `files`: notebooks, undoable cell operations,
  saving and recovery
- `editor`, `nvim`, `rpc`, `editing`: the builtin modal editor and the embedded
  nvim
- `kernel`, `runs`, `events`, `completion`, `assist`: kernels, executions,
  completions and docs
- `highlight`, `markdown`, `latex`, `output`, `pictures`, `style`, `ui`:
  rendered cells
- `wrap`, `layout`, `draw`, `popups`, `report`, `log`: what is on the screen
- `app`, `input`, `commands`, `pointer`: the session, keys and the pointer

`app/` is the program around the library: the terminal, processes, sockets and
files.
