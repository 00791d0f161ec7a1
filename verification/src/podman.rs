//! Os comandos da CLI do podman e a leitura das suas respostas.
//!
//! Cada função devolve os argumentos com que o podman deve ser chamado.

use vstd::prelude::*;
use vstd::string::*;

use crate::decimal::digitos;
use crate::inteiros::{inteiro_entre, ler_i64};
use crate::texto::{
    aparado, aparar, ate, caracteres, decimal, fatia, iguais, limites_aparados, procurar, trecho,
};

verus! {

/// Os textos de uma lista.
pub open spec fn textos(v: Seq<String>) -> Seq<Seq<char>> {
    v.map_values(|s: String| s@)
}

/// Os textos de uma lista de referências.
pub open spec fn trechos(v: Seq<&str>) -> Seq<Seq<char>> {
    v.map_values(|s: &str| s@)
}

/// Uma lista com cópias dos textos.
pub fn lista(itens: &[&str]) -> (r: Vec<String>)
    ensures
        textos(r@) == trechos(itens@),
{
    let mut r: Vec<String> = Vec::new();
    let mut i: usize = 0;
    while i < itens.len()
        invariant
            i <= itens@.len(),
            textos(r@) == trechos(itens@).take(i as int),
        decreases itens@.len() - i,
    {
        let ghost antes = r@;
        let item: &str = itens[i];
        r.push(item.to_owned());
        i = i + 1;
        proof {
            assert(textos(r@) =~= textos(antes).push(item@));
            assert(textos(r@) =~= trechos(itens@).take(i as int));
        }
    }
    proof {
        assert(trechos(itens@).take(itens@.len() as int) =~= trechos(itens@));
    }
    r
}

pub fn disponivel() -> (r: Vec<String>)
    ensures
        textos(r@) == seq!["--version"@],
{
    let r = lista(&["--version"]);
    proof {
        assert(textos(r@) =~= seq!["--version"@]);
    }
    r
}

// ---- Rede ----

pub fn rede_existe(nome: &str) -> (r: Vec<String>)
    ensures
        textos(r@) == seq!["network"@, "exists"@, nome@],
{
    let r = lista(&["network", "exists", nome]);
    proof {
        assert(textos(r@) =~= seq!["network"@, "exists"@, nome@]);
    }
    r
}

/// Cria a rede; nada a fazer se ela já existe.
pub fn rede_criar(nome: &str, existe: bool) -> (r: Option<Vec<String>>)
    ensures
        match r {
            Some(args) => !existe && textos(args@) == seq!["network"@, "create"@, nome@],
            None => existe,
        },
{
    if existe {
        return None;
    }
    let args = lista(&["network", "create", nome]);
    proof {
        assert(textos(args@) =~= seq!["network"@, "create"@, nome@]);
    }
    Some(args)
}

pub fn rede_remover(nome: &str) -> (r: Vec<String>)
    ensures
        textos(r@) == seq!["network"@, "rm"@, "-f"@, nome@],
{
    let r = lista(&["network", "rm", "-f", nome]);
    proof {
        assert(textos(r@) =~= seq!["network"@, "rm"@, "-f"@, nome@]);
    }
    r
}

// ---- Imagem ----

pub fn imagem_existe(tag: &str) -> (r: Vec<String>)
    ensures
        textos(r@) == seq!["image"@, "exists"@, tag@],
{
    let r = lista(&["image", "exists", tag]);
    proof {
        assert(textos(r@) =~= seq!["image"@, "exists"@, tag@]);
    }
    r
}

pub fn construir_imagem(tag: &str, contexto: &str, containerfile: &str) -> (r: Vec<String>)
    ensures
        textos(r@) == seq!["build"@, "-t"@, tag@, "-f"@, containerfile@, contexto@],
{
    let r = lista(&["build", "-t", tag, "-f", containerfile, contexto]);
    proof {
        assert(textos(r@) =~= seq!["build"@, "-t"@, tag@, "-f"@, containerfile@, contexto@]);
    }
    r
}

// ---- Containers ----

pub struct Montagem {
    pub origem: String,
    pub destino: String,
    pub somente_leitura: bool,
}

/// O argumento de uma montagem. ",Z" reaplica o rótulo SELinux; inofensivo em sistemas sem SELinux.
pub open spec fn montagem(origem: Seq<char>, destino: Seq<char>, somente_leitura: bool) -> Seq<char> {
    if somente_leitura {
        origem + ":"@ + destino + ":ro,Z"@
    } else {
        origem + ":"@ + destino + ":Z"@
    }
}

/// Os argumentos das montagens.
pub open spec fn argumentos(ms: Seq<Montagem>) -> Seq<Seq<char>> {
    ms.map_values(|m: Montagem| m.argumento())
}

impl Montagem {
    pub open spec fn argumento(self) -> Seq<char> {
        montagem(self.origem@, self.destino@, self.somente_leitura)
    }

    pub fn leitura(origem: &str, destino: &str) -> (r: Montagem)
        ensures
            r.origem@ == origem@,
            r.destino@ == destino@,
            r.somente_leitura,
    {
        Montagem {
            origem: origem.to_owned(),
            destino: destino.to_owned(),
            somente_leitura: true,
        }
    }

    pub fn escrita(origem: &str, destino: &str) -> (r: Montagem)
        ensures
            r.origem@ == origem@,
            r.destino@ == destino@,
            !r.somente_leitura,
    {
        Montagem {
            origem: origem.to_owned(),
            destino: destino.to_owned(),
            somente_leitura: false,
        }
    }

    pub fn como_arg(&self) -> (r: String)
        ensures
            r@ == self.argumento(),
    {
        let mut r = self.origem.clone();
        r.append(":");
        r.append(self.destino.as_str());
        if self.somente_leitura {
            r.append(":ro,Z");
        } else {
            r.append(":Z");
        }
        r
    }
}

/// As opções que fazem as montagens.
pub open spec fn args_das_montagens(ms: Seq<Seq<char>>) -> Seq<Seq<char>>
    decreases ms.len(),
{
    if ms.len() == 0 {
        Seq::empty()
    } else {
        args_das_montagens(ms.drop_last()) + seq!["-v"@, ms.last()]
    }
}

/// Os argumentos que sobem um container.
pub open spec fn args_de_subir(
    nome: Seq<char>,
    imagem: Seq<char>,
    rede: Seq<char>,
    apelido: Seq<char>,
    montagens: Seq<Seq<char>>,
    comando: Seq<Seq<char>>,
) -> Seq<Seq<char>> {
    seq![
        "run"@,
        "-d"@,
        "--name"@,
        nome,
        "--network"@,
        rede,
        "--network-alias"@,
        apelido,
        "--hostname"@,
        apelido,
    ] + args_das_montagens(montagens) + seq![imagem] + comando
}

/// Sobe um container em segundo plano, com esse apelido na rede.
pub fn subir(
    nome: &str,
    imagem: &str,
    rede: &str,
    apelido: &str,
    montagens: &Vec<Montagem>,
    comando: &Vec<String>,
) -> (r: Vec<String>)
    ensures
        textos(r@) == args_de_subir(
            nome@,
            imagem@,
            rede@,
            apelido@,
            argumentos(montagens@),
            textos(comando@),
        ),
{
    let mut r = lista(
        &[
            "run",
            "-d",
            "--name",
            nome,
            "--network",
            rede,
            "--network-alias",
            apelido,
            "--hostname",
            apelido,
        ],
    );
    let ghost inicio = textos(r@);
    let ghost ms = argumentos(montagens@);
    proof {
        assert(inicio =~= seq![
            "run"@,
            "-d"@,
            "--name"@,
            nome@,
            "--network"@,
            rede@,
            "--network-alias"@,
            apelido@,
            "--hostname"@,
            apelido@,
        ]);
        assert(textos(r@) =~= inicio + args_das_montagens(ms.take(0)));
    }
    let mut i: usize = 0;
    while i < montagens.len()
        invariant
            i <= montagens@.len(),
            ms == argumentos(montagens@),
            textos(r@) == inicio + args_das_montagens(ms.take(i as int)),
        decreases montagens@.len() - i,
    {
        proof {
            assert(ms.take(i + 1).drop_last() =~= ms.take(i as int));
        }
        let ghost antes = r@;
        let v = "-v".to_owned();
        let arg = montagens[i].como_arg();
        r.push(v);
        r.push(arg);
        proof {
            assert(textos(r@) =~= textos(antes) + seq!["-v"@, montagens@[i as int].argumento()]);
            assert(textos(r@) =~= inicio + args_das_montagens(ms.take(i + 1)));
        }
        i = i + 1;
    }
    let ghost antes = r@;
    r.push(imagem.to_owned());
    proof {
        assert(ms.take(montagens@.len() as int) =~= ms);
        assert(textos(r@) =~= textos(antes) + seq![imagem@]);
        assert(textos(comando@).take(0) =~= Seq::<Seq<char>>::empty());
        assert(textos(r@) =~= inicio + args_das_montagens(ms) + seq![imagem@] + textos(
            comando@,
        ).take(0));
    }
    let mut j: usize = 0;
    while j < comando.len()
        invariant
            j <= comando@.len(),
            ms == argumentos(montagens@),
            textos(r@) == inicio + args_das_montagens(ms) + seq![imagem@] + textos(
                comando@,
            ).take(j as int),
        decreases comando@.len() - j,
    {
        let ghost antes = r@;
        r.push(comando[j].clone());
        proof {
            assert(textos(r@) =~= textos(antes).push(comando@[j as int]@));
            assert(textos(r@) =~= inicio + args_das_montagens(ms) + seq![imagem@] + textos(
                comando@,
            ).take(j + 1));
        }
        j = j + 1;
    }
    proof {
        assert(textos(comando@).take(comando@.len() as int) =~= textos(comando@));
    }
    r
}

pub fn esta_rodando(nome: &str) -> (r: Vec<String>)
    ensures
        textos(r@) == seq!["inspect"@, "-f"@, "{{.State.Running}}"@, nome@],
{
    let r = lista(&["inspect", "-f", "{{.State.Running}}", nome]);
    proof {
        assert(textos(r@) =~= seq!["inspect"@, "-f"@, "{{.State.Running}}"@, nome@]);
    }
    r
}

/// Se a resposta a `esta_rodando` diz que sim; sem resposta, o container não existe.
pub fn rodando(resposta: Option<&str>) -> (r: bool)
    ensures
        r == match resposta {
            Some(s) => aparado(s@) == "true"@,
            None => false,
        },
{
    match resposta {
        Some(s) => iguais(aparar(s).as_str(), "true"),
        None => false,
    }
}

/// O algarismo hexadecimal maiúsculo.
pub open spec fn hexadecimal(d: nat) -> char {
    if d < 10 {
        (48 + d) as char
    } else {
        (55 + d) as char
    }
}

/// A porta em quatro algarismos hexadecimais.
pub open spec fn porta_em_hexa(porta: u16) -> Seq<char> {
    seq![
        hexadecimal(porta as nat / 4096),
        hexadecimal(porta as nat / 256 % 16),
        hexadecimal(porta as nat / 16 % 16),
        hexadecimal(porta as nat % 16),
    ]
}

fn algarismo_hexa(d: u16) -> (r: char)
    requires
        d < 16,
    ensures
        r == hexadecimal(d as nat),
{
    if d < 10 {
        (48 + d as u8) as char
    } else {
        (55 + d as u8) as char
    }
}

fn escrever_hexa(porta: u16) -> (r: String)
    ensures
        r@ == porta_em_hexa(porta),
{
    let mut r = String::new();
    r.push(algarismo_hexa(porta / 4096));
    r.push(algarismo_hexa(porta / 256 % 16));
    r.push(algarismo_hexa(porta / 16 % 16));
    r.push(algarismo_hexa(porta % 16));
    proof {
        assert(r@ =~= porta_em_hexa(porta));
    }
    r
}

/// O script que procura a porta. Em /proc/net/tcp o estado 0A é LISTEN; o UDP não tem estado de
/// escuta.
pub open spec fn sonda(porta: u16, udp: bool) -> Seq<char> {
    if udp {
        "grep -qi ':"@ + porta_em_hexa(porta) + " ' /proc/net/udp /proc/net/udp6 2>/dev/null"@
    } else {
        "grep -qi ':"@ + porta_em_hexa(porta)
            + " [0-9A-F]*:0000 0A' /proc/net/tcp /proc/net/tcp6 2>/dev/null"@
    }
}

/// Verifica se o processo dentro do container já abriu a porta.
///
/// `ListenPortFileName` do rsyslog não grava o arquivo quando a porta é fixa,
/// então a prontidão é sondada direto em /proc/net.
pub fn porta_escutando(nome: &str, porta: u16, udp: bool) -> (r: Vec<String>)
    ensures
        textos(r@) == seq!["exec"@, nome@, "sh"@, "-c"@, sonda(porta, udp)],
{
    let mut script = "grep -qi ':".to_owned();
    script.append(escrever_hexa(porta).as_str());
    if udp {
        script.append(" ' /proc/net/udp /proc/net/udp6 2>/dev/null");
    } else {
        script.append(" [0-9A-F]*:0000 0A' /proc/net/tcp /proc/net/tcp6 2>/dev/null");
    }
    let r = lista(&["exec", nome, "sh", "-c", script.as_str()]);
    proof {
        assert(textos(r@) =~= seq!["exec"@, nome@, "sh"@, "-c"@, sonda(porta, udp)]);
    }
    r
}

pub fn codigo_saida(nome: &str) -> (r: Vec<String>)
    ensures
        textos(r@) == seq!["inspect"@, "-f"@, "{{.State.ExitCode}}"@, nome@],
{
    let r = lista(&["inspect", "-f", "{{.State.ExitCode}}", nome]);
    proof {
        assert(textos(r@) =~= seq!["inspect"@, "-f"@, "{{.State.ExitCode}}"@, nome@]);
    }
    r
}

/// O código na resposta a `codigo_saida`; nada se não há resposta ou ela não é um número.
pub fn codigo(resposta: Option<&str>) -> (r: Option<i64>)
    ensures
        match r {
            Some(n) => resposta is Some && inteiro_entre(
                aparado(resposta->0@),
                i64::MIN as int,
                i64::MAX as int,
            ) == Some(n as int),
            None => resposta is Some ==> inteiro_entre(
                aparado(resposta->0@),
                i64::MIN as int,
                i64::MAX as int,
            ) is None,
        },
{
    match resposta {
        Some(s) => ler_i64(aparar(s).as_str()),
        None => None,
    }
}

pub fn logs(nome: &str) -> (r: Vec<String>)
    ensures
        textos(r@) == seq!["logs"@, nome@],
{
    let r = lista(&["logs", nome]);
    proof {
        assert(textos(r@) =~= seq!["logs"@, nome@]);
    }
    r
}

pub fn parar(nome: &str, segundos: u32) -> (r: Vec<String>)
    ensures
        textos(r@) == seq!["stop"@, "-t"@, digitos(segundos as nat), nome@],
{
    let t = decimal(segundos as u128);
    let r = lista(&["stop", "-t", t.as_str(), nome]);
    proof {
        assert(textos(r@) =~= seq!["stop"@, "-t"@, digitos(segundos as nat), nome@]);
    }
    r
}

pub fn remover(nome: &str) -> (r: Vec<String>)
    ensures
        textos(r@) == seq!["rm"@, "-f"@, nome@],
{
    let r = lista(&["rm", "-f", nome]);
    proof {
        assert(textos(r@) =~= seq!["rm"@, "-f"@, nome@]);
    }
    r
}

/// Lista os containers cujo nome começa pelo prefixo, rodando ou não.
pub fn listar_com_prefixo(prefixo: &str) -> (r: Vec<String>)
    ensures
        textos(r@) == seq![
            "ps"@,
            "-a"@,
            "--filter"@,
            "name=^"@ + prefixo@,
            "--format"@,
            "{{.Names}}"@,
        ],
{
    let mut filtro = "name=^".to_owned();
    filtro.append(prefixo);
    let r = lista(&["ps", "-a", "--filter", filtro.as_str(), "--format", "{{.Names}}"]);
    proof {
        assert(textos(r@) =~= seq![
            "ps"@,
            "-a"@,
            "--filter"@,
            "name=^"@ + prefixo@,
            "--format"@,
            "{{.Names}}"@,
        ]);
    }
    r
}

/// As linhas do texto, aparadas, sem as vazias.
pub open spec fn linhas_aparadas(s: Seq<char>) -> Seq<Seq<char>>
    decreases s.len(),
{
    let k = ate(s, '\n') as int;
    let linha = aparado(s.take(k));
    let esta = if linha.len() > 0 {
        seq![linha]
    } else {
        Seq::empty()
    };
    if k >= s.len() {
        esta
    } else {
        esta + linhas_aparadas(s.skip(k + 1))
    }
}

/// Os nomes na resposta a `listar_com_prefixo`; nenhum se não há resposta.
pub fn nomes_listados(resposta: Option<&str>) -> (r: Vec<String>)
    ensures
        textos(r@) == match resposta {
            Some(s) => linhas_aparadas(s@),
            None => Seq::empty(),
        },
{
    let mut r: Vec<String> = Vec::new();
    let cs = match resposta {
        Some(s) => caracteres(s),
        None => {
            proof {
                assert(textos(r@) =~= Seq::<Seq<char>>::empty());
            }
            return r;
        },
    };
    let total: usize = cs.len();
    let mut de: usize = 0;
    proof {
        assert(cs@.skip(0) =~= cs@);
        assert(textos(r@) + linhas_aparadas(cs@) =~= linhas_aparadas(cs@));
    }
    loop
        invariant
            de <= total,
            total == cs@.len(),
            textos(r@) + linhas_aparadas(cs@.skip(de as int)) == linhas_aparadas(cs@),
            resposta is Some,
            cs@ == resposta->0@,
        decreases total - de,
    {
        let fim = procurar(&cs, de, '\n');
        let ghost resto = cs@.skip(de as int);
        let linha = fatia(&cs, de, fim);
        proof {
            assert(linha@ =~= resto.take(fim - de));
        }
        let (a, b) = limites_aparados(&linha);
        let ghost antes = r@;
        if a < b {
            r.push(trecho(&linha, a, b));
            proof {
                assert(textos(r@) =~= textos(antes) + seq![aparado(linha@)]);
            }
        } else {
            proof {
                assert(textos(r@) =~= textos(antes) + Seq::<Seq<char>>::empty());
            }
        }
        if fim >= total {
            return r;
        }
        proof {
            assert(resto.skip(fim - de + 1) =~= cs@.skip(fim + 1));
            assert(textos(r@) + linhas_aparadas(cs@.skip(fim + 1)) =~= textos(antes)
                + linhas_aparadas(resto));
        }
        de = fim + 1;
    }
}

// ---- Respostas ----

/// Os textos separados por espaço.
pub open spec fn juntos(v: Seq<Seq<char>>) -> Seq<char>
    decreases v.len(),
{
    if v.len() == 0 {
        Seq::empty()
    } else if v.len() == 1 {
        v[0]
    } else {
        juntos(v.drop_last()) + " "@ + v.last()
    }
}

fn juntar_args(v: &Vec<String>) -> (r: String)
    ensures
        r@ == juntos(textos(v@)),
{
    let mut r = String::new();
    let mut i: usize = 0;
    proof {
        assert(r@ =~= juntos(textos(v@).take(0)));
    }
    while i < v.len()
        invariant
            i <= v@.len(),
            r@ == juntos(textos(v@).take(i as int)),
        decreases v@.len() - i,
    {
        let ghost t = textos(v@).take(i + 1);
        proof {
            assert(t.drop_last() =~= textos(v@).take(i as int));
            assert(t.last() == v@[i as int]@);
        }
        if i == 0 {
            r = v[i].clone();
        } else {
            r.append(" ");
            r.append(v[i].as_str());
        }
        i = i + 1;
    }
    proof {
        assert(textos(v@).take(v@.len() as int) =~= textos(v@));
    }
    r
}

/// A mensagem de um comando do podman que falhou.
pub fn falha(args: &Vec<String>, erros: &str) -> (r: String)
    ensures
        r@ == "podman "@ + juntos(textos(args@)) + " falhou:\n"@ + aparado(erros@),
{
    let mut r = "podman ".to_owned();
    r.append(juntar_args(args).as_str());
    r.append(" falhou:\n");
    r.append(aparar(erros).as_str());
    r
}

} // verus!
